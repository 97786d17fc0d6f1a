//! Rendering of multi-register states as text.
//!
//! The rendering of one limb is delegated to the standard formatting
//! machinery behind trusted wrappers; joining the four limbs with single
//! spaces is verified against the names given to those renderings.

use vstd::prelude::*;

verus! {

use vstd::string::StringExecFns;
use crate::utilities::ustates::Ux4;

/// The decimal rendering of a `u64`, a function of the value alone.
pub uninterp spec fn dec_str_of(x: u64) -> Seq<char>;

/// The lower-case hexadecimal rendering of a `u64`, a function of the
/// value alone.
pub uninterp spec fn lower_hex_str_of(x: u64) -> Seq<char>;

/// The upper-case hexadecimal rendering of a `u64`, a function of the
/// value alone.
pub uninterp spec fn upper_hex_str_of(x: u64) -> Seq<char>;

/// The binary rendering of a `u64`, a function of the value alone.
pub uninterp spec fn bin_str_of(x: u64) -> Seq<char>;

/// Relies on core's `Display` formatting for `u64`: the decimal digits of
/// the value, depending on the value alone.
#[verifier::external_body]
fn u64_dec(x: u64) -> (r: String)
    ensures
        r@ == dec_str_of(x),
{
    format!("{}", x)
}

/// Relies on core's `LowerHex` formatting for `u64`: the lower-case
/// hexadecimal digits of the value, depending on the value alone.
#[verifier::external_body]
fn u64_lower_hex(x: u64) -> (r: String)
    ensures
        r@ == lower_hex_str_of(x),
{
    format!("{:x}", x)
}

/// Relies on core's `UpperHex` formatting for `u64`: the upper-case
/// hexadecimal digits of the value, depending on the value alone.
#[verifier::external_body]
fn u64_upper_hex(x: u64) -> (r: String)
    ensures
        r@ == upper_hex_str_of(x),
{
    format!("{:X}", x)
}

/// Relies on core's `Binary` formatting for `u64`: the binary digits of
/// the value, depending on the value alone.
#[verifier::external_body]
fn u64_bin(x: u64) -> (r: String)
    ensures
        r@ == bin_str_of(x),
{
    format!("{:b}", x)
}

/// The four limb renderings joined with single spaces.
pub open spec fn joined(r0: Seq<char>, r1: Seq<char>, r2: Seq<char>, r3: Seq<char>) -> Seq<char> {
    r0 + " "@ + r1 + " "@ + r2 + " "@ + r3
}

impl Ux4<u64> {
    /// The state as text: the four limbs in decimal, least significant
    /// first, separated by single spaces.
    pub fn to_dec_string(&self) -> (r: String)
        ensures
            r@ == joined(
                dec_str_of(self.0@[0]),
                dec_str_of(self.0@[1]),
                dec_str_of(self.0@[2]),
                dec_str_of(self.0@[3]),
            ),
    {
        let mut out = u64_dec(self.0[0]);
        out.append(" ");
        out.append(u64_dec(self.0[1]).as_str());
        out.append(" ");
        out.append(u64_dec(self.0[2]).as_str());
        out.append(" ");
        out.append(u64_dec(self.0[3]).as_str());
        out
    }

    /// The state as text: the four limbs in lower-case hexadecimal,
    /// least significant first, separated by single spaces.
    pub fn to_lower_hex_string(&self) -> (r: String)
        ensures
            r@ == joined(
                lower_hex_str_of(self.0@[0]),
                lower_hex_str_of(self.0@[1]),
                lower_hex_str_of(self.0@[2]),
                lower_hex_str_of(self.0@[3]),
            ),
    {
        let mut out = u64_lower_hex(self.0[0]);
        out.append(" ");
        out.append(u64_lower_hex(self.0[1]).as_str());
        out.append(" ");
        out.append(u64_lower_hex(self.0[2]).as_str());
        out.append(" ");
        out.append(u64_lower_hex(self.0[3]).as_str());
        out
    }

    /// The state as text: the four limbs in upper-case hexadecimal,
    /// least significant first, separated by single spaces.
    pub fn to_upper_hex_string(&self) -> (r: String)
        ensures
            r@ == joined(
                upper_hex_str_of(self.0@[0]),
                upper_hex_str_of(self.0@[1]),
                upper_hex_str_of(self.0@[2]),
                upper_hex_str_of(self.0@[3]),
            ),
    {
        let mut out = u64_upper_hex(self.0[0]);
        out.append(" ");
        out.append(u64_upper_hex(self.0[1]).as_str());
        out.append(" ");
        out.append(u64_upper_hex(self.0[2]).as_str());
        out.append(" ");
        out.append(u64_upper_hex(self.0[3]).as_str());
        out
    }

    /// The state as text: the four limbs in binary, least significant
    /// first, separated by single spaces.
    pub fn to_bin_string(&self) -> (r: String)
        ensures
            r@ == joined(
                bin_str_of(self.0@[0]),
                bin_str_of(self.0@[1]),
                bin_str_of(self.0@[2]),
                bin_str_of(self.0@[3]),
            ),
    {
        let mut out = u64_bin(self.0[0]);
        out.append(" ");
        out.append(u64_bin(self.0[1]).as_str());
        out.append(" ");
        out.append(u64_bin(self.0[2]).as_str());
        out.append(" ");
        out.append(u64_bin(self.0[3]).as_str());
        out
    }
}

} // verus!
