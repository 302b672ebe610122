//! Integers as byte strings, in either byte order.

use vstd::prelude::*;

verus! {

/// The order in which the bytes of an integer stand.
#[derive(Debug, Clone, Copy, PartialEq, Eq, Structural)]
pub enum ByteOrder {
    /// The least significant byte first.
    Little,
    /// The most significant byte first.
    Big,
}

/// The low `n` bytes of `v`, the least significant first.
pub open spec fn le_bytes(v: nat, n: nat) -> Seq<u8>
    decreases n,
{
    if n == 0 {
        Seq::empty()
    } else {
        seq![(v % 256) as u8] + le_bytes(v / 256, (n - 1) as nat)
    }
}

/// The number whose bytes, the least significant first, are `s`.
pub open spec fn le_value(s: Seq<u8>) -> nat
    decreases s.len(),
{
    if s.len() == 0 {
        0
    } else {
        s[0] as nat + 256 * le_value(s.skip(1))
    }
}

/// The low `n` bytes of `v` in the given order.
pub open spec fn int_bytes(order: ByteOrder, v: nat, n: nat) -> Seq<u8> {
    match order {
        ByteOrder::Little => le_bytes(v, n),
        ByteOrder::Big => le_bytes(v, n).reverse(),
    }
}

/// The number whose bytes in the given order are `s`.
pub open spec fn int_value(order: ByteOrder, s: Seq<u8>) -> nat {
    match order {
        ByteOrder::Little => le_value(s),
        ByteOrder::Big => le_value(s.reverse()),
    }
}

/// 256 to the power `n`.
pub open spec fn byte_range(n: nat) -> nat
    decreases n,
{
    if n == 0 {
        1
    } else {
        256 * byte_range((n - 1) as nat)
    }
}

proof fn lemma_le_round_trip(v: nat, n: nat)
    requires
        v < byte_range(n),
    ensures
        le_bytes(v, n).len() == n,
        le_value(le_bytes(v, n)) == v,
    decreases n,
{
    if n > 0 {
        assert(v / 256 < byte_range((n - 1) as nat)) by (nonlinear_arith)
            requires
                v < 256 * byte_range((n - 1) as nat),
        ;
        lemma_le_round_trip(v / 256, (n - 1) as nat);
        let s = le_bytes(v, n);
        assert(s.skip(1) =~= le_bytes(v / 256, (n - 1) as nat));
    }
}

/// The bytes of a number that fits in `n` of them give that number back.
pub proof fn int_round_trip(order: ByteOrder, v: nat, n: nat)
    requires
        v < byte_range(n),
    ensures
        int_bytes(order, v, n).len() == n,
        int_value(order, int_bytes(order, v, n)) == v,
{
    lemma_le_round_trip(v, n);
    assert(le_bytes(v, n).reverse().reverse() =~= le_bytes(v, n));
}

pub(crate) proof fn lemma_le_len(v: nat, n: nat)
    ensures
        le_bytes(v, n).len() == n,
    decreases n,
{
    if n > 0 {
        lemma_le_len(v / 256, (n - 1) as nat);
    }
}

/// Eight bytes hold any 64-bit number, and four any 32-bit number.
pub(crate) proof fn lemma_byte_ranges()
    ensures
        byte_range(4) == 0x1_0000_0000,
        byte_range(8) == 0x1_0000_0000_0000_0000,
{
    reveal_with_fuel(byte_range, 9);
}

proof fn lemma_le_bound(s: Seq<u8>)
    ensures
        le_value(s) < byte_range(s.len()),
    decreases s.len(),
{
    if s.len() > 0 {
        lemma_le_bound(s.skip(1));
    }
}

/// As many bytes only hold so large a number.
pub(crate) proof fn lemma_int_bound(order: ByteOrder, s: Seq<u8>)
    ensures
        int_value(order, s) < byte_range(s.len()),
{
    lemma_le_bound(s);
    lemma_le_bound(s.reverse());
}

/// The low `n` bytes of `v` in the given order.
pub(crate) fn to_bytes(order: ByteOrder, v: u64, n: usize) -> (r: Vec<u8>)
    ensures
        r@ == int_bytes(order, v as nat, n as nat),
{
    let mut le: Vec<u8> = Vec::new();
    let mut rest: u64 = v;
    while le.len() < n
        invariant
            le@.len() <= n,
            le@ + le_bytes(rest as nat, (n - le@.len()) as nat) == le_bytes(v as nat, n as nat),
        decreases n - le@.len(),
    {
        let ghost before = le@;
        let ghost left = (n - le@.len()) as nat;
        le.push((rest % 256) as u8);
        assert(before + le_bytes(rest as nat, left) =~= le@ + le_bytes(
            (rest / 256) as nat,
            (left - 1) as nat,
        ));
        rest = rest / 256;
    }
    assert(le@ =~= le_bytes(v as nat, n as nat));
    match order {
        ByteOrder::Little => le,
        ByteOrder::Big => {
            let mut be: Vec<u8> = Vec::new();
            let mut i: usize = le.len();
            while i > 0
                invariant
                    i <= le@.len(),
                    be@ == le@.reverse().take(le@.len() - i),
                decreases i,
            {
                i = i - 1;
                be.push(le[i]);
                assert(be@ =~= le@.reverse().take(le@.len() - i));
            }
            assert(be@ =~= le@.reverse());
            be
        },
    }
}

/// The number whose bytes in the given order are `s`.
pub(crate) fn from_bytes(order: ByteOrder, s: &[u8]) -> (r: u64)
    requires
        s@.len() <= 8,
    ensures
        r == int_value(order, s@),
{
    let ghost le = match order {
        ByteOrder::Little => s@,
        ByteOrder::Big => s@.reverse(),
    };
    let n: usize = s.len();
    let mut r: u64 = 0;
    let mut left: usize = n;
    assert(le.skip(n as int) =~= Seq::empty());
    proof {
        lemma_byte_ranges();
    }
    while left > 0
        invariant
            left <= n,
            n == s@.len(),
            n <= 8,
            le == (match order {
                ByteOrder::Little => s@,
                ByteOrder::Big => s@.reverse(),
            }),
            r == le_value(le.skip(left as int)),
        decreases left,
    {
        let b: u8 = match order {
            ByteOrder::Little => s[left - 1],
            ByteOrder::Big => s[n - left],
        };
        assert(b == le[left - 1]);
        let ghost tail = le.skip(left as int);
        let ghost longer = le.skip(left - 1);
        assert(longer.skip(1) =~= tail);
        proof {
            lemma_le_bound(longer);
            assert(longer.len() <= 8);
            lemma_range_monotone(longer.len(), 8);
            lemma_byte_ranges();
        }
        r = b as u64 + 256 * r;
        left = left - 1;
    }
    assert(le.skip(0) =~= le);
    r
}

proof fn lemma_range_monotone(a: nat, b: nat)
    requires
        a <= b,
    ensures
        0 < byte_range(a) <= byte_range(b),
    decreases b,
{
    if b > a {
        lemma_range_monotone(a, (b - 1) as nat);
    } else if b > 0 {
        lemma_range_monotone((a - 1) as nat, (b - 1) as nat);
    }
}

/// Reads two bytes in the order of the machine that the code runs on.
///
/// Calls `u16::from_ne_bytes`, and claims that its result is the number that
/// the bytes stand for in one of the two orders; which one depends on the
/// machine, so nothing is claimed of it.
#[verifier::external_body]
fn native_u16(bytes: [u8; 2]) -> (r: u16)
    ensures
        r == le_value(bytes@) || r == le_value(bytes@.reverse()),
{
    u16::from_ne_bytes(bytes)
}

/// The byte order in which the bytes 1 and 0 stand for `one`.
fn order_of(one: u16) -> (r: ByteOrder)
    requires
        one == 1 || one == 256,
    ensures
        int_value(r, seq![1u8, 0u8]) == one,
        r == (if one == 1 {
            ByteOrder::Little
        } else {
            ByteOrder::Big
        }),
{
    proof {
        lemma_one();
    }
    if one == 1 {
        ByteOrder::Little
    } else {
        ByteOrder::Big
    }
}

proof fn lemma_one()
    ensures
        le_value(seq![1u8, 0u8]) == 1,
        le_value(seq![1u8, 0u8].reverse()) == 256,
{
    reveal_with_fuel(le_value, 3);
    assert(seq![1u8, 0u8].reverse() =~= seq![0u8, 1u8]);
    assert(seq![1u8, 0u8].skip(1) =~= seq![0u8]);
    assert(seq![0u8, 1u8].skip(1) =~= seq![1u8]);
    assert(seq![0u8].skip(1) =~= Seq::empty());
    assert(seq![1u8].skip(1) =~= Seq::empty());
}

/// The byte order of the machine that the code runs on.
pub(crate) fn host_byte_order() -> ByteOrder {
    let bytes: [u8; 2] = [1, 0];
    let one: u16 = native_u16(bytes);
    proof {
        assert(bytes@ =~= seq![1u8, 0u8]);
        lemma_one();
    }
    order_of(one)
}

/// What four bytes stand for, in either order.
pub proof fn value_of_four_bytes(s: Seq<u8>)
    requires
        s.len() == 4,
    ensures
        int_value(ByteOrder::Big, s) == s[0] * 0x100_0000 + s[1] * 0x1_0000 + s[2] * 0x100 + s[3],
        int_value(ByteOrder::Little, s) == s[3] * 0x100_0000 + s[2] * 0x1_0000 + s[1] * 0x100
            + s[0],
{
    lemma_four(s);
    lemma_four(s.reverse());
}

proof fn lemma_four(s: Seq<u8>)
    requires
        s.len() == 4,
    ensures
        le_value(s) == s[0] + 0x100 * s[1] + 0x1_0000 * s[2] + 0x100_0000 * s[3],
{
    reveal_with_fuel(le_value, 5);
    assert(s.skip(1).skip(1) =~= s.skip(2));
    assert(s.skip(2).skip(1) =~= s.skip(3));
    assert(s.skip(3).skip(1) =~= Seq::empty());
}

/// What eight bytes stand for, in either order: the value of the higher four, and that of
/// the lower four.
pub proof fn value_of_eight_bytes(s: Seq<u8>)
    requires
        s.len() == 8,
    ensures
        int_value(ByteOrder::Big, s) == 0x1_0000_0000 * int_value(ByteOrder::Big, s.take(4))
            + int_value(ByteOrder::Big, s.skip(4)),
        int_value(ByteOrder::Little, s) == int_value(ByteOrder::Little, s.take(4)) + 0x1_0000_0000
            * int_value(ByteOrder::Little, s.skip(4)),
{
    lemma_eight(s);
    lemma_eight(s.reverse());
    assert(s.reverse().take(4) =~= s.skip(4).reverse());
    assert(s.reverse().skip(4) =~= s.take(4).reverse());
}

proof fn lemma_eight(s: Seq<u8>)
    requires
        s.len() == 8,
    ensures
        le_value(s) == le_value(s.take(4)) + 0x1_0000_0000 * le_value(s.skip(4)),
{
    lemma_four(s.take(4));
    let a = le_value(s.skip(4));
    assert(s.skip(3).skip(1) =~= s.skip(4));
    assert(s.skip(2).skip(1) =~= s.skip(3));
    assert(s.skip(1).skip(1) =~= s.skip(2));
    assert(le_value(s.skip(3)) == s[3] + 256 * a);
    assert(le_value(s.skip(2)) == s[2] + 256 * le_value(s.skip(3)));
    assert(le_value(s.skip(1)) == s[1] + 256 * le_value(s.skip(2)));
}

/// Bytes that stand for the same number, in the same order and number, are the same.
pub proof fn values_tell_bytes_apart(order: ByteOrder, s: Seq<u8>)
    ensures
        int_bytes(order, int_value(order, s), s.len()) == s,
{
    lemma_bytes_of_value(s);
    lemma_bytes_of_value(s.reverse());
    assert(s.reverse().reverse() =~= s);
}

proof fn lemma_bytes_of_value(s: Seq<u8>)
    ensures
        le_bytes(le_value(s), s.len()) == s,
    decreases s.len(),
{
    if s.len() > 0 {
        let rest = le_value(s.skip(1));
        let v = s[0] as nat + 256 * rest;
        lemma_bytes_of_value(s.skip(1));
        assert(v % 256 == s[0] && v / 256 == rest);
        assert(seq![s[0]] + s.skip(1) =~= s);
    } else {
        assert(le_bytes(le_value(s), s.len()) =~= s);
    }
}

} // verus!
