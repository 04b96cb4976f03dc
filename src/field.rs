//! Fields of a report, and reading their values out of raw reports.
use vstd::prelude::*;
use vstd::arithmetic::power2::pow2;
use crate::bytes::{byte_span, le_value, lemma_le_value_push};
use crate::item::MainFlags;

verus! {

/// A single input or output field, with the global state in effect where it was declared.
#[derive(Clone, Copy, Debug, PartialEq, Eq, Structural)]
pub struct Field {
    /// Whether this is an input or output field.
    pub is_input: bool,
    /// Flags belonging to this field.
    pub flags: MainFlags,
    /// The minimum value this field can contain.
    pub logical_min: i32,
    /// The maximum value this field can contain.
    pub logical_max: i32,
    /// The minimum physical value this field can represent.
    pub physical_min: i32,
    /// The maximum physical value this field can represent.
    pub physical_max: i32,
    /// How many times this field repeats.
    pub report_count: u32,
    /// The size of this field in bits.
    pub report_size: u32,
}

/// Index of the first byte that holds bit `offset` of a report.
pub open spec fn first_byte(offset: nat) -> nat {
    offset / 8
}

/// Index one past the last byte that holds a bit of `offset..offset + size`.
pub open spec fn end_byte(offset: nat, size: nat) -> nat {
    (offset + size + 7) / 8
}

/// Whether a `size`-bit value at bit `offset` can be read out of `report`.
pub open spec fn extractable(report: Seq<u8>, offset: nat, size: nat) -> bool {
    size <= 32 && end_byte(offset, size) <= report.len()
}

/// The `size` bits of `report` that start at bit `offset`, least significant bit first: the
/// covered bytes read as a little-endian number, without the bits before `offset`, modulo
/// `2^size`.
pub open spec fn field_bits(report: Seq<u8>, offset: nat, size: nat) -> nat {
    let covered = report.subrange(first_byte(offset) as int, end_byte(offset, size) as int);
    (le_value(covered) / pow2(offset % 8)) % pow2(size)
}

/// `n` read as a two's complement number of `size` bits.
pub open spec fn sign_extend(n: nat, size: nat) -> int {
    if size > 0 && n >= pow2((size - 1) as nat) {
        n - pow2(size)
    } else {
        n as int
    }
}

/// `2^k` as a machine integer.
fn pow2_u64(k: u32) -> (r: u64)
    requires
        k < 64,
    ensures
        r as nat == pow2(k as nat),
        r > 0,
{
    proof {
        vstd::bits::lemma_u64_pow2_no_overflow(k as nat);
        vstd::bits::lemma_u64_shl_is_mul(1, k as u64);
    }
    1u64 << (k as u64)
}

impl Field {
    /// Tries to extract a field's value from a report, the field's first bit being bit `offset`
    /// of the report.
    ///
    /// This only extracts a single field, i.e. it ignores `report_count`.
    pub fn extract_u32(&self, report: &[u8], offset: u32) -> (r: Option<u32>)
        ensures
            extractable(report@, offset as nat, self.report_size as nat) ==> r == Some(
                field_bits(report@, offset as nat, self.report_size as nat) as u32,
            ),
            !extractable(report@, offset as nat, self.report_size as nat) ==> r is None,
    {
        if self.report_size > 32 {
            return None;
        }
        let start: u64 = offset as u64;
        let end: u64 = start + self.report_size as u64;
        let start_i: u64 = start / 8;
        let end_i: u64 = (end + 7) / 8;
        if end_i > report.len() as u64 {
            return None;
        }
        let si = start_i as usize;
        let ei = end_i as usize;
        assert(ei - si <= 5);
        let mut v: u64 = 0;
        let mut weight: u64 = 1;
        let mut i = si;
        proof {
            reveal_with_fuel(le_value, 1);
            reveal_with_fuel(byte_span, 1);
            assert(report@.subrange(si as int, si as int) =~= Seq::<u8>::empty());
        }
        while i < ei
            invariant
                si <= i <= ei <= report@.len(),
                ei - si <= 5,
                v as nat == le_value(report@.subrange(si as int, i as int)),
                weight as nat == byte_span((i - si) as nat),
                weight <= 0x100_0000_0000,
                v < weight,
            decreases ei - i,
        {
            let b = report[i];
            proof {
                let s = report@.subrange(si as int, i as int);
                lemma_le_value_push(s, b);
                assert(report@.subrange(si as int, i + 1) =~= s.push(b));
                reveal_with_fuel(byte_span, 6);
                assert(b * weight <= 255 * weight) by (nonlinear_arith)
                    requires b <= 255;
            }
            v = v + b as u64 * weight;
            weight = weight * 256;
            i = i + 1;
        }
        let shift = pow2_u64(offset % 8);
        let modulus = pow2_u64(self.report_size);
        let bits = v / shift % modulus;
        proof {
            vstd::arithmetic::power2::lemma2_to64();
            if self.report_size < 32 {
                vstd::arithmetic::power2::lemma_pow2_strictly_increases(
                    self.report_size as nat,
                    32,
                );
            }
            vstd::arithmetic::div_mod::lemma_mod_bound((v / shift) as int, modulus as int);
        }
        Some(bits as u32)
    }

    /// Tries to extract a field's value from a report as a two's complement number of
    /// `report_size` bits.
    ///
    /// This only extracts a single field, i.e. it ignores `report_count`.
    pub fn extract_i32(&self, report: &[u8], offset: u32) -> (r: Option<i32>)
        ensures
            extractable(report@, offset as nat, self.report_size as nat) ==> r == Some(
                sign_extend(
                    field_bits(report@, offset as nat, self.report_size as nat),
                    self.report_size as nat,
                ) as i32,
            ),
            !extractable(report@, offset as nat, self.report_size as nat) ==> r is None,
    {
        match self.extract_u32(report, offset) {
            None => None,
            Some(n) => {
                let size = self.report_size;
                if size == 0 {
                    proof {
                        vstd::arithmetic::power2::lemma2_to64();
                    }
                    return Some(0);
                }
                let half = pow2_u64(size - 1);
                let full = pow2_u64(size);
                proof {
                    vstd::arithmetic::power2::lemma_pow2_unfold(size as nat);
                    vstd::arithmetic::power2::lemma2_to64();
                    if size < 32 {
                        vstd::arithmetic::power2::lemma_pow2_strictly_increases(
                            size as nat,
                            32,
                        );
                    }
                    vstd::arithmetic::div_mod::lemma_mod_bound(
                        (le_value(report@.subrange(first_byte(offset as nat) as int, end_byte(offset as nat, size as nat) as int)) / pow2(offset as nat % 8)) as int,
                        pow2(size as nat) as int,
                    );
                }
                if n as u64 >= half {
                    Some((n as i64 - full as i64) as i32)
                } else {
                    Some(n as i32)
                }
            },
        }
    }
}

} // verus!
