//! Unsigned integers in a byte stream, in either byte order.

use vstd::prelude::*;

verus! {

/// The order in which the bytes of a multi-byte integer are stored.
#[derive(Clone, Copy, Debug, PartialEq, Eq, Structural)]
pub enum ByteOrder {
    Little,
    Big,
}

/// `256` raised to the power `n`.
pub open spec fn radix_pow(n: nat) -> nat
    decreases n,
{
    if n == 0 {
        1
    } else {
        256 * radix_pow((n - 1) as nat)
    }
}

/// The number whose least significant byte comes first in `b`.
pub open spec fn le_value(b: Seq<u8>) -> nat
    decreases b.len(),
{
    if b.len() == 0 {
        0
    } else {
        b[0] as nat + 256 * le_value(b.drop_first())
    }
}

/// The number that the bytes `b` hold in the given order.
pub open spec fn value_in(order: ByteOrder, b: Seq<u8>) -> nat {
    match order {
        ByteOrder::Little => le_value(b),
        ByteOrder::Big => le_value(b.reverse()),
    }
}

/// Bytes `at .. at + n` of `b`, read in the given order.
pub open spec fn field(order: ByteOrder, b: Seq<u8>, at: int, n: int) -> nat {
    value_in(order, b.subrange(at, at + n))
}

pub proof fn lemma_le_value_bound(b: Seq<u8>)
    ensures
        le_value(b) < radix_pow(b.len()),
    decreases b.len(),
{
    if b.len() > 0 {
        lemma_le_value_bound(b.drop_first());
        let r = le_value(b.drop_first());
        let p = radix_pow((b.len() - 1) as nat);
        assert(b[0] as nat + 256 * r < 256 * p) by (nonlinear_arith)
            requires
                r < p,
                b[0] < 256,
        ;
    }
}

pub proof fn lemma_radix_pow_values()
    ensures
        radix_pow(2) == 0x1_0000,
        radix_pow(4) == 0x1_0000_0000,
        radix_pow(8) == 0x1_0000_0000_0000_0000,
{
    reveal_with_fuel(radix_pow, 9);
}

/// Reads the `n`-byte unsigned integer at `at` in `b`.
pub fn read_uint(order: ByteOrder, b: &[u8], at: usize, n: usize) -> (v: u64)
    requires
        n <= 8,
        at + n <= b@.len(),
    ensures
        v == field(order, b@, at as int, n as int),
        v < radix_pow(n as nat),
{
    let ghost s = b@.subrange(at as int, at + n);
    let ghost t = match order {
        ByteOrder::Little => s,
        ByteOrder::Big => s.reverse(),
    };
    let mut acc: u64 = 0;
    let mut k: usize = n;
    proof {
        assert(t.subrange(n as int, n as int) =~= Seq::<u8>::empty());
    }
    while k > 0
        invariant
            n <= 8,
            at + n <= b.len(),
            k <= n,
            s == b@.subrange(at as int, at + n),
            t == (match order {
                ByteOrder::Little => s,
                ByteOrder::Big => s.reverse(),
            }),
            t.len() == n,
            acc == le_value(t.subrange(k as int, n as int)),
        decreases k,
    {
        k = k - 1;
        let idx: usize = match order {
            ByteOrder::Little => at + k,
            ByteOrder::Big => at + (n - 1 - k),
        };
        let byte = b[idx];
        proof {
            assert(t[k as int] == byte);
            let tail = t.subrange(k as int + 1, n as int);
            let whole = t.subrange(k as int, n as int);
            assert(whole.drop_first() =~= tail);
            lemma_le_value_bound(tail);
            assert(tail.len() <= 7);
            lemma_radix_pow_monotone(tail.len(), 7);
            reveal_with_fuel(radix_pow, 8);
            assert(acc < 0x100_0000_0000_0000);
        }
        acc = byte as u64 + 256 * acc;
    }
    proof {
        assert(t.subrange(0, n as int) =~= t);
        lemma_le_value_bound(t);
    }
    acc
}

pub proof fn lemma_radix_pow_monotone(a: nat, b: nat)
    requires
        a <= b,
    ensures
        radix_pow(a) <= radix_pow(b),
    decreases b,
{
    if a < b {
        lemma_radix_pow_monotone(a, (b - 1) as nat);
    }
}

/// The `n` bytes of `v`, least significant first.
pub open spec fn le_bytes(v: nat, n: nat) -> Seq<u8>
    decreases n,
{
    if n == 0 {
        Seq::empty()
    } else {
        seq![(v % 256) as u8] + le_bytes(v / 256, (n - 1) as nat)
    }
}

/// The `n` bytes of `v` in the given order.
pub open spec fn bytes_in(order: ByteOrder, v: nat, n: nat) -> Seq<u8> {
    match order {
        ByteOrder::Little => le_bytes(v, n),
        ByteOrder::Big => le_bytes(v, n).reverse(),
    }
}

pub proof fn lemma_le_bytes_value(v: nat, n: nat)
    requires
        v < radix_pow(n),
    ensures
        le_bytes(v, n).len() == n,
        le_value(le_bytes(v, n)) == v,
    decreases n,
{
    if n > 0 {
        let p = radix_pow((n - 1) as nat);
        assert(v / 256 < p) by (nonlinear_arith)
            requires
                v < 256 * p,
        ;
        lemma_le_bytes_value(v / 256, (n - 1) as nat);
        let b = le_bytes(v, n);
        assert(b.drop_first() =~= le_bytes(v / 256, (n - 1) as nat));
    }
}

/// Reading back what `bytes_in` wrote gives the number that was written.
pub proof fn lemma_bytes_in_value(order: ByteOrder, v: nat, n: nat)
    requires
        v < radix_pow(n),
    ensures
        bytes_in(order, v, n).len() == n,
        value_in(order, bytes_in(order, v, n)) == v,
{
    lemma_le_bytes_value(v, n);
    assert(le_bytes(v, n).reverse().reverse() =~= le_bytes(v, n));
}

/// Appends the `n` bytes of `v` in the given order.
pub fn write_uint(order: ByteOrder, out: &mut Vec<u8>, v: u64, n: usize)
    requires
        n <= 8,
        v < radix_pow(n as nat),
    ensures
        final(out)@ == old(out)@ + bytes_in(order, v as nat, n as nat),
{
    let mut le: Vec<u8> = Vec::new();
    let mut x: u64 = v;
    let mut i: usize = 0;
    while i < n
        invariant
            i <= n,
            le@ + le_bytes(x as nat, (n - i) as nat) == le_bytes(v as nat, n as nat),
            le@.len() == i,
        decreases n - i,
    {
        let byte = (x % 256) as u8;
        proof {
            let rest = le_bytes(x as nat, (n - i) as nat);
            assert(rest == seq![byte] + le_bytes((x / 256) as nat, (n - i - 1) as nat));
            assert(le@.push(byte) + le_bytes((x / 256) as nat, (n - i - 1) as nat) =~= le@ + rest);
        }
        le.push(byte);
        x = x / 256;
        i = i + 1;
    }
    proof {
        assert(le@ =~= le_bytes(v as nat, n as nat));
    }
    let ghost start = out@;
    let mut j: usize = 0;
    while j < n
        invariant
            j <= n,
            le@.len() == n,
            le@ == le_bytes(v as nat, n as nat),
            out@ == start + bytes_in(order, v as nat, n as nat).take(j as int),
        decreases n - j,
    {
        let byte = match order {
            ByteOrder::Little => le[j],
            ByteOrder::Big => le[n - 1 - j],
        };
        proof {
            let all = bytes_in(order, v as nat, n as nat);
            assert(all[j as int] == byte);
            assert(all.take(j as int).push(byte) =~= all.take(j as int + 1));
        }
        out.push(byte);
        j = j + 1;
    }
    proof {
        let all = bytes_in(order, v as nat, n as nat);
        assert(all.take(n as int) =~= all);
    }
}

/// `u16::from_ne_bytes`: the two bytes read in the byte order of the machine
/// the program runs on. Every target Rust supports is either little- or
/// big-endian, so the result is one of the two readings; which one depends on
/// the machine and is not stated.
#[verifier::external_body]
fn u16_from_ne_bytes(b: [u8; 2]) -> (r: u16)
    ensures
        r == value_in(ByteOrder::Little, b@) || r == value_in(ByteOrder::Big, b@),
{
    u16::from_ne_bytes(b)
}

/// The byte order in which the bytes `[1, 0]` read as `probe`: little-endian
/// when they read as 1, big-endian otherwise (they read as 256 then).
pub fn byte_order_of_probe(probe: u16) -> (r: ByteOrder)
    ensures
        r == (if probe == 1 {
            ByteOrder::Little
        } else {
            ByteOrder::Big
        }),
        (probe == 1 || probe == 256) ==> value_in(r, seq![1u8, 0u8]) == probe,
{
    proof {
        let s = seq![1u8, 0u8];
        assert(s.drop_first().drop_first() =~= Seq::<u8>::empty());
        assert(s.reverse() =~= seq![0u8, 1u8]);
        assert(seq![0u8, 1u8].drop_first() =~= seq![1u8]);
        assert(seq![1u8].drop_first() =~= Seq::<u8>::empty());
        assert(le_value(Seq::<u8>::empty()) == 0);
        assert(le_value(seq![0u8]) == 0) by {
            assert(seq![0u8].drop_first() =~= Seq::<u8>::empty());
        }
        assert(le_value(seq![1u8]) == 1);
        assert(le_value(s) == 1) by {
            assert(s.drop_first() =~= seq![0u8]);
        }
        assert(le_value(s.reverse()) == 256);
    }
    if probe == 1 {
        ByteOrder::Little
    } else {
        ByteOrder::Big
    }
}

/// The byte order of the machine the program runs on, found by reading the
/// bytes `[1, 0]` as a native 16-bit integer. Netlink carries its integers in
/// this order. Which of the two it is depends on the machine, so nothing
/// more is stated of the result.
pub fn host_order() -> ByteOrder {
    let probe = u16_from_ne_bytes([1, 0]);
    byte_order_of_probe(probe)
}

/// An `n`-byte field holds a number below `256^n`.
pub proof fn lemma_field_bound(order: ByteOrder, b: Seq<u8>, at: int, n: int)
    requires
        0 <= at,
        0 <= n,
        at + n <= b.len(),
    ensures
        field(order, b, at, n) < radix_pow(n as nat),
{
    let s = b.subrange(at, at + n);
    lemma_le_value_bound(s);
    lemma_le_value_bound(s.reverse());
}

} // verus!
