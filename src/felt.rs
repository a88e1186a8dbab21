//! Field elements: integers modulo the 252-bit STARK prime, held as four
//! 64-bit limbs.
use crate::text::{dec_text, hex_text, short_string_of, short_string_of_len};
use cairo_lang_runner::short_string::{as_cairo_short_string, as_cairo_short_string_ex};
use starknet_types_core::felt::Felt;
use vstd::prelude::*;

verus! {

/// The prime modulus of the field, 2^251 + 17 * 2^192 + 1.
pub open spec fn field_modulus() -> nat {
    limbs_value(1, 0, 0, 0x0800_0000_0000_0011)
}

/// The value of the byte-array magic marker.
pub open spec fn magic_value() -> nat {
    limbs_value(0xd643_8b1c_57c8_79a3, 0x45e9_3d71_10e8_1aa2, 0x5916_b2a2_ca68_501a, 0x046a_6158_a16a_947e)
}

/// The number that four little-endian limbs stand for.
pub open spec fn limbs_value(w0: u64, w1: u64, w2: u64, w3: u64) -> nat {
    (((w3 * 0x1_0000_0000_0000_0000 + w2) * 0x1_0000_0000_0000_0000 + w1) * 0x1_0000_0000_0000_0000
        + w0) as nat
}

const LIMB_BASE: u128 = 0x1_0000_0000_0000_0000;

const MODULUS_TOP: u64 = 0x0800_0000_0000_0011;

/// An element of the field, always below the modulus.
#[derive(Clone, Copy, Debug, PartialEq, Eq, Structural)]
pub struct FieldElement {
    w0: u64,
    w1: u64,
    w2: u64,
    w3: u64,
}

impl FieldElement {
    #[verifier::type_invariant]
    closed spec fn in_field(self) -> bool {
        self.value() < field_modulus()
    }

    /// The integer in `[0, field_modulus())` that this element stands for.
    pub closed spec fn value(self) -> nat {
        limbs_value(self.w0, self.w1, self.w2, self.w3)
    }

    /// The element holding `v`.
    pub fn from_u128(v: u128) -> (r: FieldElement)
        ensures
            r.value() == v,
    {
        let lo = (v % LIMB_BASE) as u64;
        let hi = (v / LIMB_BASE) as u64;
        FieldElement { w0: lo, w1: hi, w2: 0, w3: 0 }
    }

    /// The marker that opens an encoded byte array.
    pub fn byte_array_magic() -> (r: FieldElement)
        ensures
            r.value() == magic_value(),
    {
        FieldElement {
            w0: 0xd643_8b1c_57c8_79a3,
            w1: 0x45e9_3d71_10e8_1aa2,
            w2: 0x5916_b2a2_ca68_501a,
            w3: 0x046a_6158_a16a_947e,
        }
    }

    /// Whether this element and `other` hold the same value.
    pub fn same_as(&self, other: &FieldElement) -> (r: bool)
        ensures
            r == (self.value() == other.value()),
    {
        self.w0 == other.w0 && self.w1 == other.w1 && self.w2 == other.w2 && self.w3 == other.w3
    }

    /// The value as `0x` and its lowercase hexadecimal digits.
    pub fn to_hex(&self) -> (r: String)
        ensures
            r@ == hex_text(self.value()),
    {
        hex_string(self)
    }

    /// The value as its decimal numeral.
    pub fn to_decimal(&self) -> (r: String)
        ensures
            r@ == dec_text(self.value()),
    {
        decimal_string(self)
    }

    /// The value as a `u128`, when it fits.
    pub fn to_u128(&self) -> (r: Option<u128>)
        ensures
            r == (if self.value() < 0x1_0000_0000_0000_0000_0000_0000_0000_0000 {
                Some(self.value() as u128)
            } else {
                None::<u128>
            }),
    {
        proof {
            use_type_invariant(self);
        }
        if self.w2 == 0 && self.w3 == 0 {
            Some(self.w1 as u128 * LIMB_BASE + self.w0 as u128)
        } else {
            None
        }
    }

    /// The value as a `usize`, when it fits.
    pub fn to_usize(&self) -> (r: Option<usize>)
        ensures
            r == (if self.value() <= usize::MAX {
                Some(self.value() as usize)
            } else {
                None::<usize>
            }),
    {
        proof {
            use_type_invariant(self);
        }
        if self.w1 == 0 && self.w2 == 0 && self.w3 == 0 && self.w0 as u128 <= usize::MAX as u128 {
            Some(self.w0 as usize)
        } else {
            None
        }
    }

    /// The element holding `256 * self + byte`, when that is below the modulus.
    pub fn times_256_plus(&self, byte: u8) -> (r: Option<FieldElement>)
        ensures
            match r {
                Some(e) => self.value() * 256 + byte < field_modulus()
                    && e.value() == self.value() * 256 + byte,
                None => self.value() * 256 + byte >= field_modulus(),
            },
    {
        proof {
            use_type_invariant(self);
        }
        let t0: u128 = self.w0 as u128 * 256 + byte as u128;
        let n0 = (t0 % LIMB_BASE) as u64;
        let c0: u128 = t0 / LIMB_BASE;
        let t1: u128 = self.w1 as u128 * 256 + c0;
        let n1 = (t1 % LIMB_BASE) as u64;
        let c1: u128 = t1 / LIMB_BASE;
        let t2: u128 = self.w2 as u128 * 256 + c1;
        let n2 = (t2 % LIMB_BASE) as u64;
        let c2: u128 = t2 / LIMB_BASE;
        let t3: u128 = self.w3 as u128 * 256 + c2;
        if t3 >= LIMB_BASE {
            return None;
        }
        let n3 = t3 as u64;
        assert(limbs_value(n0, n1, n2, n3) == self.value() * 256 + byte);
        if n3 < MODULUS_TOP || (n3 == MODULUS_TOP && n2 == 0 && n1 == 0 && n0 == 0) {
            Some(FieldElement { w0: n0, w1: n1, w2: n2, w3: n3 })
        } else {
            None
        }
    }

    /// The element holding `10 * self + digit`, when that is below the modulus.
    pub fn times_ten_plus(&self, digit: u64) -> (r: Option<FieldElement>)
        requires
            digit < 10,
        ensures
            match r {
                Some(e) => self.value() * 10 + digit < field_modulus()
                    && e.value() == self.value() * 10 + digit,
                None => self.value() * 10 + digit >= field_modulus(),
            },
    {
        proof {
            use_type_invariant(self);
        }
        let t0: u128 = self.w0 as u128 * 10 + digit as u128;
        let n0 = (t0 % LIMB_BASE) as u64;
        let c0: u128 = t0 / LIMB_BASE;
        let t1: u128 = self.w1 as u128 * 10 + c0;
        let n1 = (t1 % LIMB_BASE) as u64;
        let c1: u128 = t1 / LIMB_BASE;
        let t2: u128 = self.w2 as u128 * 10 + c1;
        let n2 = (t2 % LIMB_BASE) as u64;
        let c2: u128 = t2 / LIMB_BASE;
        let t3: u128 = self.w3 as u128 * 10 + c2;
        if t3 >= LIMB_BASE {
            return None;
        }
        let n3 = t3 as u64;
        assert(limbs_value(n0, n1, n2, n3) == self.value() * 10 + digit);
        if n3 < MODULUS_TOP || (n3 == MODULUS_TOP && n2 == 0 && n1 == 0 && n0 == 0) {
            Some(FieldElement { w0: n0, w1: n1, w2: n2, w3: n3 })
        } else {
            None
        }
    }
}

} // verus!

verus! {

/// Relies on `cairo_lang_runner::short_string::as_cairo_short_string`, which
/// reads the minimal big-endian bytes of the value as printable characters
/// followed only by nulls.
#[verifier::external_body]
pub(crate) fn short_string(f: &FieldElement) -> (r: Option<String>)
    ensures
        match r {
            Some(s) => short_string_of(f.value()) == Some(s@),
            None => short_string_of(f.value()) is None,
        },
{
    let felt = Felt::from_bytes_be_slice(
        &[f.w3.to_be_bytes(), f.w2.to_be_bytes(), f.w1.to_be_bytes(), f.w0.to_be_bytes()].concat(),
    );
    as_cairo_short_string(&felt)
}

/// Relies on `cairo_lang_runner::short_string::as_cairo_short_string_ex`,
/// which reads the value as exactly `len` bytes, escaping nulls and
/// unprintable bytes.
#[verifier::external_body]
pub(crate) fn short_string_ex(f: &FieldElement, len: usize) -> (r: Option<String>)
    ensures
        match r {
            Some(s) => short_string_of_len(f.value(), len as nat) == Some(s@),
            None => short_string_of_len(f.value(), len as nat) is None,
        },
{
    let felt = Felt::from_bytes_be_slice(
        &[f.w3.to_be_bytes(), f.w2.to_be_bytes(), f.w1.to_be_bytes(), f.w0.to_be_bytes()].concat(),
    );
    as_cairo_short_string_ex(&felt, len)
}

/// Relies on `Felt::to_biguint` and the `{:#x}` format of `num_bigint::BigUint`:
/// `0x` and the lowercase digits, without leading zeros.
#[verifier::external_body]
pub(crate) fn hex_string(f: &FieldElement) -> (r: String)
    ensures
        r@ == hex_text(f.value()),
{
    let felt = Felt::from_bytes_be_slice(
        &[f.w3.to_be_bytes(), f.w2.to_be_bytes(), f.w1.to_be_bytes(), f.w0.to_be_bytes()].concat(),
    );
    format!("{:#x}", felt.to_biguint())
}

/// Relies on the `Display` of `Felt`, which writes the decimal numeral of
/// `Felt::to_biguint`.
#[verifier::external_body]
pub(crate) fn decimal_string(f: &FieldElement) -> (r: String)
    ensures
        r@ == dec_text(f.value()),
{
    let felt = Felt::from_bytes_be_slice(
        &[f.w3.to_be_bytes(), f.w2.to_be_bytes(), f.w1.to_be_bytes(), f.w0.to_be_bytes()].concat(),
    );
    felt.to_string()
}

} // verus!
