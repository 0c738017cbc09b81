//! Text for the display: decimal numbers, memory sizes with one decimal
//! place, and shortened strings.

use vstd::prelude::*;
use vstd::string::StringSliceAdditionalSpecFns;
use vstd::utf8::{
    decode_utf8, encode_scalar, encode_utf8, is_char_boundary, is_leading_byte_width_3, valid_utf8,
};

verus! {

/// The character of decimal digit `d`.
pub open spec fn digit_char(d: nat) -> char {
    (48 + d) as char
}

/// `n` written in decimal, without leading zeros.
pub open spec fn decimal(n: nat) -> Seq<char>
    decreases n,
{
    if n < 10 {
        seq![digit_char(n)]
    } else {
        decimal(n / 10).push(digit_char(n % 10))
    }
}

/// `String::push`: appends one character.
#[verifier::external_body]
fn push_char(s: &mut String, c: char)
    ensures
        final(s)@ == old(s)@.push(c),
{
    s.push(c);
}

/// Appends `n` in decimal.
pub fn push_decimal(out: &mut String, n: u64)
    ensures
        final(out)@ == old(out)@ + decimal(n as nat),
    decreases n,
{
    if n >= 10 {
        push_decimal(out, n / 10);
    }
    let d: u8 = (n % 10) as u8;
    let c = (48u8 + d) as char;
    push_char(out, c);
    proof {
        if n >= 10 {
            assert(old(out)@ + decimal((n / 10) as nat) + seq![c] =~= old(out)@ + decimal(n as nat));
        } else {
            assert(old(out)@.push(c) =~= old(out)@ + decimal(n as nat));
        }
    }
}

/// `n / d` rounded to the nearest integer, ties to the even one.
pub open spec fn round_half_even(n: nat, d: nat) -> nat
    recommends
        d > 0,
{
    let q = n / d;
    let r = n % d;
    if 2 * r > d || (2 * r == d && q % 2 == 1) {
        q + 1
    } else {
        q
    }
}

/// Rounding to nearest really gives a nearest integer: it is at most half a
/// unit away from the exact quotient.
pub proof fn lemma_round_half_even_nearest(n: nat, d: nat)
    requires
        d > 0,
    ensures
        2 * (round_half_even(n, d) * d - n) <= d,
        2 * (n - round_half_even(n, d) * d) <= d,
{
    let q = n / d;
    let r = n % d;
    assert(n == q * d + r) by (nonlinear_arith)
        requires
            d > 0,
            q == n / d,
            r == n % d,
    ;
    assert((q + 1) * d == q * d + d) by (nonlinear_arith);
}

fn round_half_even_u128(n: u128, d: u128) -> (r: u128)
    requires
        d > 0,
    ensures
        r == round_half_even(n as nat, d as nat),
{
    let q = n / d;
    let rem = n % d;
    if rem > d - rem || (rem == d - rem && q % 2 == 1) {
        assert(q < u128::MAX) by (nonlinear_arith)
            requires
                q == n / d,
                rem == n % d,
                rem > 0,
                d > 0,
                n <= u128::MAX,
        ;
        q + 1
    } else {
        q
    }
}

/// Distance between neighbouring 64-bit floats around `x`: 1 below 2^53,
/// doubling with every further bit.
pub open spec fn f64_spacing(x: nat) -> nat
    decreases x,
{
    if x < 0x20_0000_0000_0000 {
        1
    } else {
        2 * f64_spacing(x / 2)
    }
}

/// The value of `x as f64`: the nearest 64-bit float, ties to the one with
/// an even significand.
pub open spec fn as_f64(x: nat) -> nat {
    round_half_even(x, f64_spacing(x)) * f64_spacing(x)
}

proof fn lemma_f64_spacing_bound(x: nat)
    ensures
        f64_spacing(x) >= 1,
        x >= 0x20_0000_0000_0000 ==> f64_spacing(x) * 0x10_0000_0000_0000 <= x,
    decreases x,
{
    if x >= 0x20_0000_0000_0000 {
        lemma_f64_spacing_bound(x / 2);
    }
}

fn f64_spacing_u64(x: u64) -> (g: u64)
    ensures
        g == f64_spacing(x as nat),
        1 <= g <= 0x1000,
    decreases x,
{
    proof {
        lemma_f64_spacing_bound(x as nat);
    }
    if x < 0x20_0000_0000_0000 {
        1
    } else {
        2 * f64_spacing_u64(x / 2)
    }
}

/// Tenths of `x / d` (after `x` is taken to a 64-bit float), rounded as
/// `format!("{:.1}", x as f64 / d as f64)` rounds.
pub open spec fn tenths(x: nat, d: nat) -> nat {
    round_half_even(as_f64(x) * 10, d)
}

/// `x / d` with one decimal place, as `format!("{:.1}", x as f64 / d as f64)`
/// writes it.
pub open spec fn one_decimal(x: nat, d: nat) -> Seq<char> {
    decimal(tenths(x, d) / 10) + seq!['.'] + decimal(tenths(x, d) % 10)
}

/// Appends `x / d` with one decimal place, for `d` a power of two
/// (so that the division is exact in floating point).
pub fn push_one_decimal(out: &mut String, x: u64, d: u64)
    requires
        d == 1024 || d == 0x10_0000,
    ensures
        final(out)@ == old(out)@ + one_decimal(x as nat, d as nat),
{
    let g = f64_spacing_u64(x);
    let m = round_half_even_u128(x as u128, g as u128);
    proof {
        assert(m * g <= x + g) by (nonlinear_arith)
            requires
                m == round_half_even(x as nat, g as nat),
                g >= 1,
        {
            lemma_round_half_even_nearest(x as nat, g as nat);
        }
    }
    let f: u128 = m * (g as u128);
    let t = round_half_even_u128(f * 10, d as u128);
    proof {
        let fi: int = f as int;
        let di: int = d as int;
        assert(t as int <= (fi * 10) / di + 1);
        assert((fi * 10) / di + 1 < 0x1_0000_0000_0000_0000) by (nonlinear_arith)
            requires
                fi <= 0xffff_ffff_ffff_ffff + 0x1000,
                di >= 1024,
        ;
    }
    let t = t as u64;
    push_decimal(out, t / 10);
    push_char(out, '.');
    push_decimal(out, t % 10);
    proof {
        assert(final(out)@ =~= old(out)@ + one_decimal(x as nat, d as nat));
    }
}

/// A memory size in KiB as the process table shows it: GiB with one
/// decimal from 1 GiB up, whole MiB from 1 MiB up, else KiB.
pub open spec fn mem_kb_text(kb: u64) -> Seq<char> {
    if kb >= 0x10_0000 {
        one_decimal(kb as nat, 0x10_0000) + seq!['G']
    } else if kb >= 1024 {
        decimal(round_half_even(kb as nat, 1024)) + seq!['M']
    } else {
        decimal(kb as nat) + seq!['K']
    }
}

/// Formats a memory size given in KiB, such as `1.5G`, `300M` or `512K`.
pub fn fmt_mem_kb(kb: u64) -> (s: String)
    ensures
        s@ == mem_kb_text(kb),
{
    let mut out = String::new();
    if kb >= 0x10_0000 {
        push_one_decimal(&mut out, kb, 0x10_0000);
        push_char(&mut out, 'G');
    } else if kb >= 1024 {
        let m = round_half_even_u128(kb as u128, 1024);
        proof {
            assert(m as int <= kb as int / 1024 + 1);
        }
        push_decimal(&mut out, m as u64);
        push_char(&mut out, 'M');
    } else {
        push_decimal(&mut out, kb);
        push_char(&mut out, 'K');
    }
    proof {
        assert(out@ =~= mem_kb_text(kb));
    }
    out
}

/// The label of the memory bar: used and total MiB, in GiB with one decimal
/// once the total reaches 1 GiB, closed by the bar's bracket.
pub open spec fn mem_label_text(used_mb: u64, total_mb: u64) -> Seq<char> {
    if total_mb >= 1024 {
        one_decimal(used_mb as nat, 1024) + seq!['/'] + one_decimal(total_mb as nat, 1024) + seq![
            'G',
            ']',
        ]
    } else {
        decimal(used_mb as nat) + seq!['/'] + decimal(total_mb as nat) + seq!['M', ']']
    }
}

/// Formats the label of the memory bar, such as `3.2/15.5G]` or `300/900M]`.
pub fn mem_label(used_mb: u64, total_mb: u64) -> (s: String)
    ensures
        s@ == mem_label_text(used_mb, total_mb),
{
    let mut out = String::new();
    if total_mb >= 1024 {
        push_one_decimal(&mut out, used_mb, 1024);
        push_char(&mut out, '/');
        push_one_decimal(&mut out, total_mb, 1024);
        push_char(&mut out, 'G');
    } else {
        push_decimal(&mut out, used_mb);
        push_char(&mut out, '/');
        push_decimal(&mut out, total_mb);
        push_char(&mut out, 'M');
    }
    push_char(&mut out, ']');
    proof {
        assert(out@ =~= mem_label_text(used_mb, total_mb));
    }
    out
}

/// The device count of the header, such as ` RDMA: 1 device` or
/// ` RDMA: 4 devices`.
pub open spec fn device_count_text(n: usize) -> Seq<char> {
    seq![' ', 'R', 'D', 'M', 'A', ':', ' '] + decimal(n as nat) + seq![
        ' ',
        'd',
        'e',
        'v',
        'i',
        'c',
        'e',
    ] + if n == 1 {
        seq![]
    } else {
        seq!['s']
    }
}

/// Formats the device count of the header.
pub fn device_count(n: usize) -> (s: String)
    ensures
        s@ == device_count_text(n),
{
    let mut out = String::new();
    push_char(&mut out, ' ');
    push_char(&mut out, 'R');
    push_char(&mut out, 'D');
    push_char(&mut out, 'M');
    push_char(&mut out, 'A');
    push_char(&mut out, ':');
    push_char(&mut out, ' ');
    push_decimal(&mut out, n as u64);
    push_char(&mut out, ' ');
    push_char(&mut out, 'd');
    push_char(&mut out, 'e');
    push_char(&mut out, 'v');
    push_char(&mut out, 'i');
    push_char(&mut out, 'c');
    push_char(&mut out, 'e');
    if n != 1 {
        push_char(&mut out, 's');
    }
    proof {
        assert(out@ =~= device_count_text(n));
    }
    out
}

/// Whether `truncate(s, max)` can cut `s` where it must: either nothing is
/// cut, or the first `max - 1` bytes end on a character boundary.
pub open spec fn truncate_allowed(s: &str, max: usize) -> bool {
    s.spec_bytes().len() <= max || (max >= 1 && is_char_boundary(s.spec_bytes(), max - 1))
}

/// [`truncate_allowed`] of the text with these characters.
pub open spec fn truncate_allowed_text(c: Seq<char>, max: usize) -> bool {
    encode_utf8(c).len() <= max || (max >= 1 && is_char_boundary(encode_utf8(c), max - 1))
}

/// What [`truncate`] makes of the text with these characters: the text when
/// its UTF-8 encoding fits in `max` bytes, else the characters of its first
/// `max - 1` bytes followed by `…`.
pub open spec fn truncated(c: Seq<char>, max: usize) -> Seq<char> {
    if encode_utf8(c).len() <= max {
        c
    } else {
        decode_utf8(encode_utf8(c).take(max - 1)) + seq!['\u{2026}']
    }
}

/// Shortens `s` to fit `max` bytes: unchanged when it fits, else its first
/// `max - 1` bytes followed by `…`.
pub fn truncate(s: &str, max: usize) -> (r: String)
    requires
        truncate_allowed(s, max),
    ensures
        r@ == truncated(s@, max),
        s.spec_bytes().len() <= max ==> r@ == s@,
        s.spec_bytes().len() > max ==> r@ == decode_utf8(s.spec_bytes().take(max - 1)) + seq![
            '\u{2026}',
        ],
        s.spec_bytes().len() > max ==> exists|k: int|
            0 <= k < s@.len() && r@ == s@.take(k) + seq!['\u{2026}'],
{
    broadcast use vstd::utf8::group_utf8_lib;

    let byte_len = s.as_bytes().len();
    if byte_len <= max {
        return s.to_owned();
    }
    let (head, _tail) = s.split_at(max - 1);
    let mut r = head.to_owned();
    push_char(&mut r, '\u{2026}');
    proof {
        let b = s.spec_bytes();
        let k = (max - 1) as int;
        assert(b.subrange(0, k) =~= b.take(k));
        assert(head@ == decode_utf8(head.spec_bytes()));
        assert(decode_utf8(b) == s@);
        assert(decode_utf8(b) =~= decode_utf8(b.subrange(0, k)) + decode_utf8(
            b.subrange(k, b.len() as int),
        ));
        let hl = head@.len() as int;
        assert(s@.take(hl) =~= head@);
        assert(b.subrange(k, b.len() as int).len() > 0);
        assert(decode_utf8(b.subrange(k, b.len() as int)).len() > 0);
        assert(r@ == s@.take(hl) + seq!['\u{2026}']);
    }
    r
}

/// Below 2^53, where `x as f64` is exact, the tenths shown are the nearest
/// to the exact value of `x / d`: off by at most half a tenth.
pub proof fn lemma_one_decimal_nearest(x: nat, d: nat)
    requires
        x < 0x20_0000_0000_0000,
        d > 0,
    ensures
        2 * (tenths(x, d) * d - 10 * x) <= d,
        2 * (10 * x - tenths(x, d) * d) <= d,
{
    assert(f64_spacing(x) == 1);
    assert(x / 1 == x && x % 1 == 0) by (nonlinear_arith);
    assert(as_f64(x) == x);
    lemma_round_half_even_nearest(x * 10, d);
}

proof fn lemma_encode_utf8_concat(a: Seq<char>, b: Seq<char>)
    ensures
        encode_utf8(a + b) == encode_utf8(a) + encode_utf8(b),
    decreases a.len(),
{
    if a.len() == 0 {
        assert(a + b =~= b);
        assert(encode_utf8(a) + encode_utf8(b) =~= encode_utf8(b));
    } else {
        assert((a + b)[0] == a[0]);
        assert((a + b).drop_first() =~= a.drop_first() + b);
        lemma_encode_utf8_concat(a.drop_first(), b);
        assert(encode_utf8(a + b) =~= encode_utf8(a) + encode_utf8(b));
    }
}

/// `…` is encoded in three bytes, the first of them a leading byte.
proof fn lemma_ellipsis_encoding()
    ensures
        encode_utf8(seq!['\u{2026}']).len() == 3,
        is_leading_byte_width_3(encode_utf8(seq!['\u{2026}'])[0]),
{
    let e = seq!['\u{2026}'];
    assert(e.drop_first() =~= Seq::<char>::empty());
    let v: u32 = '\u{2026}' as u32;
    assert(v == 0x2026);
    assert(0xE0u8 | (((0x2026u32 >> 12u32) & 0x0Fu32) as u8) == 0xE2u8) by (bit_vector);
    assert(encode_scalar(v).len() == 3);
    assert(e[0] == '\u{2026}');
    assert(encode_utf8(e.drop_first()) =~= Seq::<u8>::empty());
    assert(encode_utf8(e) == encode_scalar(e[0] as u32) + encode_utf8(e.drop_first()));
    assert(encode_utf8(e) =~= encode_scalar(v));
}

/// Shortening is done once and for all: a shortened text can be shortened
/// again to the same length, and that leaves it unchanged.
pub proof fn lemma_truncate_idempotent(c: Seq<char>, max: usize)
    requires
        truncate_allowed_text(c, max),
    ensures
        truncate_allowed_text(truncated(c, max), max),
        truncated(truncated(c, max), max) == truncated(c, max),
{
    broadcast use vstd::utf8::group_utf8_lib;

    let b = encode_utf8(c);
    if b.len() > max {
        let k = (max - 1) as int;
        let p = b.take(k);
        assert(p =~= b.subrange(0, k));
        assert(valid_utf8(b));
        assert(valid_utf8(p));
        let d = decode_utf8(p);
        assert(encode_utf8(d) == p);
        let e = seq!['\u{2026}'];
        let t = d + e;
        lemma_encode_utf8_concat(d, e);
        lemma_ellipsis_encoding();
        let bt = encode_utf8(t);
        assert(bt == p + encode_utf8(e));
        assert(bt.len() == max + 2);
        assert(bt[k] == encode_utf8(e)[0]);
        assert(valid_utf8(bt));
        assert(is_char_boundary(bt, k));
        assert(bt.take(k) =~= p);
        assert(truncated(t, max) == decode_utf8(p) + e);
    }
}

} // verus!
