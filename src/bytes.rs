//! Little-endian integer payloads of report-descriptor items.
use vstd::prelude::*;

verus! {

/// `256^n`: the number of values an `n`-byte payload can hold.
pub open spec fn byte_span(n: nat) -> nat
    decreases n,
{
    if n == 0 {
        1
    } else {
        256 * byte_span((n - 1) as nat)
    }
}

/// The unsigned value of a little-endian byte sequence.
pub open spec fn le_value(d: Seq<u8>) -> nat
    decreases d.len(),
{
    if d.len() == 0 {
        0
    } else {
        d[0] as nat + 256 * le_value(d.drop_first())
    }
}

/// The value of a little-endian byte sequence read as two's complement of its own width.
pub open spec fn signed_value(d: Seq<u8>) -> int {
    if d.len() > 0 && d.last() >= 128 {
        le_value(d) - byte_span(d.len())
    } else {
        le_value(d) as int
    }
}

/// The `n` little-endian bytes of `v`, modulo `256^n`.
pub open spec fn le_bytes(v: nat, n: nat) -> Seq<u8>
    decreases n,
{
    if n == 0 {
        Seq::empty()
    } else {
        seq![(v % 256) as u8] + le_bytes(v / 256, (n - 1) as nat)
    }
}

/// `v` as `n` bytes of little-endian two's complement.
pub open spec fn signed_bytes(v: int, n: nat) -> Seq<u8> {
    le_bytes((v % byte_span(n) as int) as nat, n)
}

/// A value read from `n` bytes is below `256^n`.
pub proof fn lemma_le_value_bound(d: Seq<u8>)
    ensures
        le_value(d) < byte_span(d.len()),
    decreases d.len(),
{
    if d.len() > 0 {
        lemma_le_value_bound(d.drop_first());
    }
}

/// Writing a value back in as many bytes as it was read from gives the bytes back.
pub proof fn lemma_le_round_trip(d: Seq<u8>)
    ensures
        le_bytes(le_value(d), d.len()) == d,
    decreases d.len(),
{
    if d.len() > 0 {
        let t = d.drop_first();
        lemma_le_round_trip(t);
        let v = le_value(d);
        assert(v % 256 == d[0] as nat && v / 256 == le_value(t)) by {
            assert(v == d[0] as nat + 256 * le_value(t));
        }
        assert(le_bytes(v, d.len()) =~= seq![d[0]] + t);
        assert(seq![d[0]] + t =~= d);
    }
}

/// Writing a signed value back in as many bytes as it was read from gives the bytes back.
pub proof fn lemma_signed_round_trip(d: Seq<u8>)
    ensures
        signed_bytes(signed_value(d), d.len()) == d,
{
    lemma_le_value_bound(d);
    lemma_le_round_trip(d);
    let m = byte_span(d.len()) as int;
    let u = le_value(d) as int;
    assert((u - m) % m == u) by {
        vstd::arithmetic::div_mod::lemma_mod_sub_multiples_vanish(u, m);
        vstd::arithmetic::div_mod::lemma_small_mod(u as nat, m as nat);
    }
    vstd::arithmetic::div_mod::lemma_small_mod(u as nat, m as nat);
}

/// Appending a high byte adds its weight to the value.
pub proof fn lemma_le_value_push(s: Seq<u8>, x: u8)
    ensures
        le_value(s.push(x)) == le_value(s) + x * byte_span(s.len()),
    decreases s.len(),
{
    reveal_with_fuel(byte_span, 2);
    if s.len() == 0 {
        reveal_with_fuel(le_value, 2);
        assert(s.push(x).drop_first() =~= Seq::<u8>::empty());
        assert(le_value(s.push(x)) == x + 256 * le_value(Seq::<u8>::empty()));
        assert(byte_span(0) == 1);
    } else {
        let t = s.drop_first();
        lemma_le_value_push(t, x);
        assert(s.push(x).drop_first() =~= t.push(x));
        assert(s.push(x)[0] == s[0]);
        assert(le_value(s.push(x)) == s[0] + 256 * le_value(t.push(x)));
        assert(le_value(s) == s[0] + 256 * le_value(t));
        assert(byte_span(s.len()) == 256 * byte_span(t.len()));
        let a = le_value(t) as int;
        let b = byte_span(t.len()) as int;
        assert(256 * (a + x * b) == 256 * a + x * (256 * b)) by (nonlinear_arith);
        assert(le_value(s.push(x)) == s[0] + 256 * (a + x * b));
    }
}

/// Reads up to four little-endian bytes as an unsigned integer; missing high bytes are zero.
pub fn read_u32(d: &[u8]) -> (r: u32)
    requires
        d@.len() <= 4,
    ensures
        r as nat == le_value(d@),
        (r as nat) < byte_span(d@.len()),
{
    proof {
        reveal_with_fuel(le_value, 5);
        reveal_with_fuel(byte_span, 5);
    }
    let n = d.len();
    if n == 0 {
        0
    } else if n == 1 {
        d[0] as u32
    } else if n == 2 {
        d[0] as u32 + 256 * d[1] as u32
    } else if n == 3 {
        d[0] as u32 + 256 * (d[1] as u32 + 256 * d[2] as u32)
    } else {
        d[0] as u32 + 256 * (d[1] as u32 + 256 * (d[2] as u32 + 256 * d[3] as u32))
    }
}

/// Reads up to four little-endian bytes as a signed integer, sign-extended from the width of
/// the bytes given.
pub fn read_i32(d: &[u8]) -> (r: i32)
    requires
        d@.len() <= 4,
    ensures
        r as int == signed_value(d@),
{
    proof {
        reveal_with_fuel(le_value, 5);
        reveal_with_fuel(byte_span, 5);
    }
    let u = read_u32(d);
    let n = d.len();
    if n == 0 || d[n - 1] < 128 {
        u as i32
    } else if n == 1 {
        (u as i64 - 0x100) as i32
    } else if n == 2 {
        (u as i64 - 0x1_0000) as i32
    } else if n == 3 {
        (u as i64 - 0x100_0000) as i32
    } else {
        (u as i64 - 0x1_0000_0000) as i32
    }
}

} // verus!
