//! Running totals of a cleanup run and their display form.
//!
//! Sizes are held in millionths of a kibibyte, the crate's base unit.
//! The display form picks the largest unit whose threshold the value
//! reaches — kibibytes below 1024, mebibytes from 1024, gibibytes from
//! 1024 squared — and prints the scaled value with two decimal digits,
//! truncated toward zero.

use vstd::arithmetic::div_mod::lemma_multiply_divide_lt;
use vstd::prelude::*;

verus! {

/// Millionths of a kibibyte in one kibibyte.
pub const MICRO_PER_KIB: u128 = 1000000;

/// Millionths of a kibibyte in one mebibyte.
pub const MICRO_PER_MIB: u128 = 1024000000;

/// Millionths of a kibibyte in one gibibyte.
pub const MICRO_PER_GIB: u128 = 1048576000000;

/// The decimal digits of `n`, most significant first, as ASCII bytes.
pub open spec fn dec_digits(n: nat) -> Seq<u8>
    decreases n,
{
    if n < 10 {
        seq![(48 + n) as u8]
    } else {
        dec_digits(n / 10).push((48 + n % 10) as u8)
    }
}

/// The scaled value `micro / div`, printed as ASCII bytes with two
/// decimal digits truncated toward zero.
pub open spec fn scaled_digits(micro: nat, div: nat) -> Seq<u8>
    recommends
        div > 0,
{
    let centi = (micro % div) * 100 / div;
    dec_digits(micro / div) + seq![46u8, (48 + centi / 10) as u8, (48 + centi % 10) as u8]
}

/// The display form of a size in millionths of a kibibyte: the scaled
/// value followed by the unit token.
pub open spec fn format_micro_spec(micro: nat) -> Seq<u8> {
    if micro >= MICRO_PER_GIB {
        scaled_digits(micro, MICRO_PER_GIB as nat) + seq![71u8, 105, 66]
    } else if micro >= MICRO_PER_MIB {
        scaled_digits(micro, MICRO_PER_MIB as nat) + seq![77u8, 105, 66]
    } else {
        scaled_digits(micro, MICRO_PER_KIB as nat) + seq![75u8, 105, 66]
    }
}

/// Decimal digit bytes stay in the ASCII digit range.
proof fn lemma_dec_digits_ascii(n: nat)
    ensures
        forall|k: int| 0 <= k < dec_digits(n).len() ==> 48 <= #[trigger] dec_digits(n)[k] <= 57,
    decreases n,
{
    if n < 10 {
        assert(dec_digits(n)[0] == (48 + n) as u8);
    } else {
        lemma_dec_digits_ascii(n / 10);
        assert forall|k: int| 0 <= k < dec_digits(n).len() implies 48 <= #[trigger] dec_digits(
            n,
        )[k] <= 57 by {
            if k < dec_digits(n).len() - 1 {
                assert(dec_digits(n)[k] == dec_digits(n / 10)[k]);
            } else {
                assert(dec_digits(n)[k] == (48 + n % 10) as u8);
            }
        }
    }
}

/// Appends the decimal digits of `n` to `out`.
fn push_dec_digits(out: &mut Vec<u8>, n: u128)
    ensures
        final(out)@ == old(out)@ + dec_digits(n as nat),
    decreases n,
{
    if n < 10 {
        out.push(48 + n as u8);
        assert(final(out)@ =~= old(out)@ + dec_digits(n as nat));
    } else {
        push_dec_digits(out, n / 10);
        out.push(48 + (n % 10) as u8);
        assert(final(out)@ =~= old(out)@ + dec_digits(n as nat));
    }
}

/// Relies on `String::from_utf8`: a vector of ASCII bytes decodes to the
/// string of exactly those characters.
#[verifier::external_body]
fn ascii_to_string(bytes: Vec<u8>) -> (r: String)
    requires
        forall|k: int| 0 <= k < bytes@.len() ==> bytes@[k] < 128,
    ensures
        r@ == bytes@.map_values(|b: u8| b as char),
{
    match String::from_utf8(bytes) {
        Ok(s) => s,
        Err(_) => String::new(),
    }
}

/// Renders a size held in millionths of a kibibyte in its display form,
/// such as `3.50MiB`.
pub fn format_micro_kib(micro: u128) -> (r: String)
    ensures
        r@ == format_micro_spec(micro as nat).map_values(|b: u8| b as char),
{
    let div: u128 = if micro >= MICRO_PER_GIB {
        MICRO_PER_GIB
    } else if micro >= MICRO_PER_MIB {
        MICRO_PER_MIB
    } else {
        MICRO_PER_KIB
    };
    let q = micro / div;
    let rem = micro % div;
    let centi = rem * 100 / div;
    proof {
        lemma_multiply_divide_lt(rem as int * 100, div as int, 100);
    }
    let mut out: Vec<u8> = Vec::new();
    push_dec_digits(&mut out, q);
    proof {
        lemma_dec_digits_ascii(q as nat);
    }
    out.push(46);
    out.push(48 + (centi / 10) as u8);
    out.push(48 + (centi % 10) as u8);
    if micro >= MICRO_PER_GIB {
        out.push(71);
    } else if micro >= MICRO_PER_MIB {
        out.push(77);
    } else {
        out.push(75);
    }
    out.push(105);
    out.push(66);
    proof {
        assert(out@ =~= format_micro_spec(micro as nat));
    }
    ascii_to_string(out)
}

/// The running totals of one cleanup run.
#[derive(Clone, Copy, Debug, PartialEq, Eq, Structural)]
pub struct CleanupStats {
    /// How many projects were actually cleaned.
    pub projects: u64,
    /// The files removed across all cleaned projects.
    pub files: u128,
    /// The size removed across all cleaned projects, in millionths of a
    /// kibibyte.
    pub size_micro_kib: u128,
}

impl CleanupStats {
    /// Fresh totals: nothing counted yet.
    pub fn new() -> (s: CleanupStats)
        ensures
            s.projects == 0,
            s.files == 0,
            s.size_micro_kib == 0,
    {
        CleanupStats { projects: 0, files: 0, size_micro_kib: 0 }
    }

    /// Folds one cleaned project into the totals: one more project, its
    /// files and its size added. Returns false — leaving the totals
    /// untouched — exactly when a total would no longer fit.
    pub fn record(&mut self, files: u64, size_micro_kib: u64) -> (ok: bool)
        ensures
            ok == (old(self).projects < u64::MAX && old(self).files + files <= u128::MAX && old(
                self,
            ).size_micro_kib + size_micro_kib <= u128::MAX),
            ok ==> final(self).projects == old(self).projects + 1 && final(self).files == old(
                self,
            ).files + files && final(self).size_micro_kib == old(self).size_micro_kib
                + size_micro_kib,
            !ok ==> *final(self) == *old(self),
    {
        match (self.projects.checked_add(1), self.files.checked_add(files as u128),
        self.size_micro_kib.checked_add(size_micro_kib as u128)) {
            (Some(p), Some(f), Some(s)) => {
                self.projects = p;
                self.files = f;
                self.size_micro_kib = s;
                true
            }
            _ => false,
        }
    }

    /// The display form of the total size, such as `3.50MiB`.
    pub fn format_size(&self) -> (r: String)
        ensures
            r@ == format_micro_spec(self.size_micro_kib as nat).map_values(|b: u8| b as char),
    {
        format_micro_kib(self.size_micro_kib)
    }
}

} // verus!
