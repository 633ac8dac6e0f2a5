//! The fixed-point value type and its operations.

use crate::extend::{
    fits, lemma_extend_negative, lemma_fits_widen, lemma_i32_shift_one_is_pow2,
    lemma_product_fits, lemma_scaled_fits, lemma_sign_bit_reads_low_bits,
    lemma_sign_extend_full_width, lemma_sign_extend_identity, lemma_sign_extend_range,
    lemma_sum_fits, sign_extend,
};
use vstd::arithmetic::power2::{lemma2_to64, pow2};
use vstd::math::max;
use vstd::prelude::*;
use vstd::std_specs::cmp::PartialEqSpec;

verus! {

/// A fixed-point signed number: the integer `mantissa` read at a scale of
/// `2^-fraction_bitcount`. `total_bitcount` declares how many low bits of the
/// mantissa are meaningful, sign bit included; bits above it hold the
/// replicated sign. Equality deliberately ignores `total_bitcount`: the
/// declared width only gives later operations headroom, it does not change
/// the value represented.
#[derive(Debug)]
pub struct SignedNumber {
    pub mantissa: i32,
    pub total_bitcount: u32,
    pub fraction_bitcount: u32,
}

impl SignedNumber {
    /// The declared widths are coherent and the mantissa is a valid
    /// sign-extended `total_bitcount`-bit value.
    pub open spec fn wf(self) -> bool {
        &&& self.fraction_bitcount < self.total_bitcount <= 32
        &&& fits(self.mantissa as int, self.total_bitcount as nat)
    }

    /// Build a value from a raw mantissa whose low `total_bitcount` bits hold
    /// the intended two's-complement encoding. If the sign bit at that width
    /// is set, every bit above it is filled with the sign; a mantissa whose
    /// sign bit is clear is stored as given. The declared widths are stored
    /// verbatim.
    pub fn new(mantissa: i32, total_bitcount: u32, fraction_bitcount: u32) -> (r: SignedNumber)
        requires
            fraction_bitcount < total_bitcount,
            total_bitcount <= 32,
        ensures
            r.total_bitcount == total_bitcount,
            r.fraction_bitcount == fraction_bitcount,
            r.mantissa as int == sign_extend(mantissa as int, total_bitcount as nat),
            fits(mantissa as int, total_bitcount as nat) ==> r.mantissa == mantissa,
            fits(mantissa as int, total_bitcount as nat) || 0 <= mantissa < pow2(
                total_bitcount as nat,
            ) ==> r.wf(),
    {
        let s: u32 = total_bitcount - 1;
        let negative: bool = mantissa & (1i32 << s) != 0;
        let extended: i32 = if negative && total_bitcount < 32 {
            mantissa | ((-1i32) << total_bitcount)
        } else {
            mantissa
        };
        proof {
            if total_bitcount == 32 {
                lemma_sign_extend_full_width(mantissa);
            } else {
                lemma_sign_bit_reads_low_bits(mantissa, s);
                if negative {
                    lemma_extend_negative(mantissa, s);
                }
            }
            if fits(mantissa as int, total_bitcount as nat) {
                lemma_sign_extend_identity(mantissa as int, total_bitcount as nat);
            }
            if 0 <= mantissa < pow2(total_bitcount as nat) {
                lemma_sign_extend_range(mantissa as int, total_bitcount as nat);
            }
        }
        SignedNumber { mantissa: extended, total_bitcount, fraction_bitcount }
    }

    /// Fixed-point product. The mantissas multiply as plain integers and both
    /// width components add: `f1` and `f2` fractional bits make `f1 + f2`,
    /// and the summed total widths keep the worst-case magnitude
    /// representable. The operands must leave the product a word to live in.
    pub fn mul(self, rhs: SignedNumber) -> (r: SignedNumber)
        requires
            self.wf(),
            rhs.wf(),
            self.total_bitcount + rhs.total_bitcount <= 32,
        ensures
            r.total_bitcount == self.total_bitcount + rhs.total_bitcount,
            r.fraction_bitcount == self.fraction_bitcount + rhs.fraction_bitcount,
            r.mantissa as int == self.mantissa * rhs.mantissa,
            r.wf(),
    {
        proof {
            lemma_product_fits(
                self.mantissa as int,
                rhs.mantissa as int,
                self.total_bitcount as nat,
                rhs.total_bitcount as nat,
            );
            lemma_fits_widen(
                self.mantissa * rhs.mantissa,
                (self.total_bitcount + rhs.total_bitcount) as nat,
                32,
            );
            lemma2_to64();
        }
        SignedNumber::new(
            self.mantissa * rhs.mantissa,
            self.total_bitcount + rhs.total_bitcount,
            self.fraction_bitcount + rhs.fraction_bitcount,
        )
    }

    /// Fixed-point sum. Both operands are brought to the larger fractional
    /// width by scaling the coarser mantissa up, the aligned mantissas are
    /// summed, and the result's integer width is the larger of the two plus
    /// one guard bit for the carry. The widened result must still fit the
    /// word.
    pub fn add(self, rhs: SignedNumber) -> (r: SignedNumber)
        requires
            self.wf(),
            rhs.wf(),
            max(
                self.total_bitcount - self.fraction_bitcount,
                rhs.total_bitcount - rhs.fraction_bitcount,
            ) + 1 + max(self.fraction_bitcount as int, rhs.fraction_bitcount as int) <= 32,
        ensures
            r.fraction_bitcount == max(
                self.fraction_bitcount as int,
                rhs.fraction_bitcount as int,
            ),
            r.total_bitcount == max(
                self.total_bitcount - self.fraction_bitcount,
                rhs.total_bitcount - rhs.fraction_bitcount,
            ) + 1 + max(self.fraction_bitcount as int, rhs.fraction_bitcount as int),
            r.mantissa as int == self.mantissa * pow2(
                (max(self.fraction_bitcount as int, rhs.fraction_bitcount as int)
                    - self.fraction_bitcount) as nat,
            ) + rhs.mantissa * pow2(
                (max(self.fraction_bitcount as int, rhs.fraction_bitcount as int)
                    - rhs.fraction_bitcount) as nat,
            ),
            r.wf(),
    {
        let ia: u32 = self.total_bitcount - self.fraction_bitcount;
        let ib: u32 = rhs.total_bitcount - rhs.fraction_bitcount;
        let integer_bitcount: u32 = (if ia >= ib {
            ia
        } else {
            ib
        }) + 1;
        let fraction_bitcount: u32 = if self.fraction_bitcount >= rhs.fraction_bitcount {
            self.fraction_bitcount
        } else {
            rhs.fraction_bitcount
        };
        let sh_a: u32 = fraction_bitcount - self.fraction_bitcount;
        let sh_b: u32 = fraction_bitcount - rhs.fraction_bitcount;
        proof {
            lemma_i32_shift_one_is_pow2(sh_a);
            lemma_i32_shift_one_is_pow2(sh_b);
            lemma_scaled_fits(self.mantissa as int, self.total_bitcount as nat, sh_a as nat);
            lemma_scaled_fits(rhs.mantissa as int, rhs.total_bitcount as nat, sh_b as nat);
            lemma_fits_widen(
                self.mantissa * pow2(sh_a as nat),
                (self.total_bitcount + sh_a) as nat,
                (integer_bitcount + fraction_bitcount - 1) as nat,
            );
            lemma_fits_widen(
                rhs.mantissa * pow2(sh_b as nat),
                (rhs.total_bitcount + sh_b) as nat,
                (integer_bitcount + fraction_bitcount - 1) as nat,
            );
            lemma_sum_fits(
                self.mantissa * pow2(sh_a as nat),
                rhs.mantissa * pow2(sh_b as nat),
                (integer_bitcount + fraction_bitcount - 1) as nat,
            );
            lemma_fits_widen(
                self.mantissa * pow2(sh_a as nat) + rhs.mantissa * pow2(sh_b as nat),
                (integer_bitcount + fraction_bitcount) as nat,
                32,
            );
            lemma_fits_widen(
                self.mantissa * pow2(sh_a as nat),
                (self.total_bitcount + sh_a) as nat,
                32,
            );
            lemma_fits_widen(
                rhs.mantissa * pow2(sh_b as nat),
                (rhs.total_bitcount + sh_b) as nat,
                32,
            );
            lemma2_to64();
        }
        let scale_a: i32 = 1i32 << sh_a;
        let scale_b: i32 = 1i32 << sh_b;
        SignedNumber::new(
            self.mantissa * scale_a + rhs.mantissa * scale_b,
            integer_bitcount + fraction_bitcount,
            fraction_bitcount,
        )
    }
}

/// Equality ignores `total_bitcount`: from one mantissa and one fractional
/// width, construction at any two total widths that the mantissa already fits
/// yields equal values — sign extension alters neither, so the stored
/// mantissas agree and the comparison never reads the total width.
pub proof fn lemma_eq_ignores_total_bitcount(m: i32, t1: u32, t2: u32, f: u32)
    requires
        f < t1 <= 32,
        f < t2 <= 32,
        fits(m as int, t1 as nat),
        fits(m as int, t2 as nat),
    ensures
        sign_extend(m as int, t1 as nat) == sign_extend(m as int, t2 as nat),
        (SignedNumber { mantissa: m, total_bitcount: t1, fraction_bitcount: f }).eq_spec(
            &(SignedNumber { mantissa: m, total_bitcount: t2, fraction_bitcount: f }),
        ),
{
    lemma_sign_extend_identity(m as int, t1 as nat);
    lemma_sign_extend_identity(m as int, t2 as nat);
}

/// Re-construction is idempotent: a well-formed value's mantissa is already
/// sign-extended, so building a new value from its own
/// `(mantissa, total_bitcount, fraction_bitcount)` stores the same mantissa
/// and fractional width, and the copy compares equal to the original.
pub proof fn lemma_reconstruction_identity(s: SignedNumber)
    requires
        s.wf(),
    ensures
        sign_extend(s.mantissa as int, s.total_bitcount as nat) == s.mantissa as int,
        forall|r: SignedNumber|
            r.mantissa as int == sign_extend(s.mantissa as int, s.total_bitcount as nat)
                && r.fraction_bitcount == s.fraction_bitcount ==> #[trigger] r.eq_spec(&s),
{
    lemma_sign_extend_identity(s.mantissa as int, s.total_bitcount as nat);
}

impl PartialEq for SignedNumber {
    /// Two values are equal when their mantissas and fractional widths agree.
    /// `total_bitcount` plays no part: the declared width only says how much
    /// headroom later operations have, not which value is held.
    fn eq(&self, other: &Self) -> (r: bool) {
        self.mantissa == other.mantissa && self.fraction_bitcount == other.fraction_bitcount
    }
}

impl vstd::std_specs::cmp::PartialEqSpecImpl for SignedNumber {
    open spec fn obeys_eq_spec() -> bool {
        true
    }

    open spec fn eq_spec(&self, other: &SignedNumber) -> bool {
        self.mantissa == other.mantissa && self.fraction_bitcount == other.fraction_bitcount
    }
}

} // verus!
