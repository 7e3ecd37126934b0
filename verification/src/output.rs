//! Parsing of the cleanup command's diagnostic text.
//!
//! The command reports either a no-op phrase or a summary line of the
//! shape `Removed <count> files, <decimal><unit> total`, with the unit one
//! of `KiB`, `MiB`, `GiB`. This module finds the leftmost such summary in
//! the captured bytes and normalizes the size into millionths of a
//! kibibyte, the crate's base unit for sizes, by multiplying the decimal
//! value by 1, 1024 or 1024 squared.

use vstd::prelude::*;

verus! {

/// What the captured text of one cleanup invocation said.
#[derive(Clone, Copy, Debug, PartialEq, Eq, Structural)]
pub enum CleanOutcome {
    /// The text contains the no-op phrase: the command removed nothing.
    NoOpRemoved,
    /// The leftmost summary line, with the file count and the size
    /// normalized to millionths of a kibibyte.
    Removed { files: u64, size_micro_kib: u64 },
    /// No summary of the expected shape was found, or its numbers do not
    /// fit the result type.
    Unparseable,
}

/// A decimal digit byte.
pub open spec fn is_digit_byte(b: u8) -> bool {
    48 <= b && b <= 57
}

/// The numeric value of a decimal digit byte.
pub open spec fn byte_digit(b: u8) -> nat
    recommends
        is_digit_byte(b),
{
    (b - 48) as nat
}

/// The value of a sequence of decimal digit bytes, most significant digit
/// first. The empty sequence has value zero.
pub open spec fn byte_digits_value(s: Seq<u8>) -> nat
    recommends
        forall|k: int| 0 <= k < s.len() ==> is_digit_byte(#[trigger] s[k]),
    decreases s.len(),
{
    if s.len() == 0 {
        0
    } else {
        10 * byte_digits_value(s.drop_last()) + byte_digit(s.last())
    }
}

/// Ten to the given power.
pub open spec fn pow10(n: nat) -> nat
    decreases n,
{
    if n == 0 {
        1
    } else {
        10 * pow10((n - 1) as nat)
    }
}

/// The first position at or after `i` that does not hold a digit byte:
/// the end of the maximal digit run starting at `i`.
pub open spec fn run_end(t: Seq<u8>, i: int) -> int
    decreases t.len() - i when 0 <= i <= t.len()
{
    if i == t.len() || !is_digit_byte(t[i]) {
        i
    } else {
        run_end(t, i + 1)
    }
}

/// The literal `"Removed "`.
pub open spec fn lit_removed() -> Seq<u8> {
    seq![82u8, 101, 109, 111, 118, 101, 100, 32]
}

/// The literal `" files, "`.
pub open spec fn lit_files_sep() -> Seq<u8> {
    seq![32, 102, 105, 108, 101, 115, 44, 32]
}

/// The literal `" total"`.
pub open spec fn lit_total() -> Seq<u8> {
    seq![32, 116, 111, 116, 97, 108]
}

/// The no-op phrase `"Removed 0 files"`.
pub open spec fn lit_noop() -> Seq<u8> {
    seq![82u8, 101, 109, 111, 118, 101, 100, 32, 48, 32, 102, 105, 108, 101, 115]
}

/// The unit token `"KiB"`.
pub open spec fn lit_kib() -> Seq<u8> {
    seq![75u8, 105, 66]
}

/// The unit token `"MiB"`.
pub open spec fn lit_mib() -> Seq<u8> {
    seq![77u8, 105, 66]
}

/// The unit token `"GiB"`.
pub open spec fn lit_gib() -> Seq<u8> {
    seq![71u8, 105, 66]
}

/// How many kibibytes one step of the given unit token is worth; `None`
/// for any token other than the three recognized ones.
pub open spec fn unit_factor(u: Seq<u8>) -> Option<nat> {
    if u == lit_kib() {
        Some(1 as nat)
    } else if u == lit_mib() {
        Some(1024 as nat)
    } else if u == lit_gib() {
        Some((1024 * 1024) as nat)
    } else {
        None
    }
}

/// The pattern `pat` occurs in `t` at position `i`.
pub open spec fn contains_at(t: Seq<u8>, i: int, pat: Seq<u8>) -> bool {
    0 <= i && i + pat.len() <= t.len() && t.subrange(i, i + pat.len()) == pat
}

/// The pattern `pat` occurs somewhere in `t`.
pub open spec fn contains_lit(t: Seq<u8>, pat: Seq<u8>) -> bool {
    exists|i: int| contains_at(t, i, pat)
}

/// A raw summary match: the file count, the size's digits read as one
/// number, how many of those digits stood after the decimal point, and
/// the unit's kibibyte factor.
pub open spec fn match_at(t: Seq<u8>, i: int) -> Option<(nat, nat, nat, nat)>
    recommends
        0 <= i <= t.len(),
{
    if !contains_at(t, i, lit_removed()) {
        None
    } else {
        let fstart = i + 8;
        let fend = run_end(t, fstart);
        if fend == fstart || !contains_at(t, fend, lit_files_sep()) {
            None
        } else {
            let sstart = fend + 8;
            let send = run_end(t, sstart);
            if send == sstart {
                None
            } else {
                let has_frac = send < t.len() && t[send] == 46 && run_end(t, send + 1) > send
                    + 1;
                let fr_end = if has_frac {
                    run_end(t, send + 1)
                } else {
                    send
                };
                if fr_end + 3 > t.len() {
                    None
                } else {
                    match unit_factor(t.subrange(fr_end, fr_end + 3)) {
                        None => None,
                        Some(factor) => if !contains_at(t, fr_end + 3, lit_total()) {
                            None
                        } else {
                            let files = byte_digits_value(t.subrange(fstart, fend));
                            let mantissa = if has_frac {
                                byte_digits_value(
                                    t.subrange(sstart, send) + t.subrange(send + 1, fr_end),
                                )
                            } else {
                                byte_digits_value(t.subrange(sstart, send))
                            };
                            let frac_len = if has_frac {
                                (fr_end - (send + 1)) as nat
                            } else {
                                0 as nat
                            };
                            Some((files, mantissa, frac_len, factor))
                        },
                    }
                }
            }
        }
    }
}

/// The leftmost summary match at or after position `i`.
pub open spec fn first_match_from(t: Seq<u8>, i: int) -> Option<(nat, nat, nat, nat)>
    decreases t.len() - i when 0 <= i <= t.len()
{
    if i >= t.len() {
        None
    } else if match_at(t, i) is Some {
        match_at(t, i)
    } else {
        first_match_from(t, i + 1)
    }
}

/// The matched size in millionths of a kibibyte: the decimal value —
/// mantissa shifted right by `frac_len` digits — times the unit factor,
/// scaled to millionths.
pub open spec fn match_size_micro(m: (nat, nat, nat, nat)) -> nat
    recommends
        m.2 <= 6,
{
    m.1 * m.3 * pow10((6 - m.2) as nat)
}

/// The matched file count fits the result type.
pub open spec fn files_fit(m: (nat, nat, nat, nat)) -> bool {
    m.0 <= u64::MAX
}

/// The matched size is representable: at most six digits after the
/// decimal point, and the normalized value fits the result type.
pub open spec fn size_fits(m: (nat, nat, nat, nat)) -> bool {
    m.2 <= 6 && match_size_micro(m) <= u64::MAX
}

/// What parsing the captured text yields. The no-op phrase anywhere in
/// the text wins; otherwise the leftmost summary match decides, and a
/// text without one — or with numbers too large to represent — is
/// unparseable.
pub open spec fn parse_spec(t: Seq<u8>) -> CleanOutcome {
    if contains_lit(t, lit_noop()) {
        CleanOutcome::NoOpRemoved
    } else {
        match first_match_from(t, 0) {
            None => CleanOutcome::Unparseable,
            Some(m) => if files_fit(m) && size_fits(m) {
                CleanOutcome::Removed {
                    files: m.0 as u64,
                    size_micro_kib: match_size_micro(m) as u64,
                }
            } else {
                CleanOutcome::Unparseable
            },
        }
    }
}

/// The fixed byte patterns the parser looks for.
struct Patterns {
    removed: Vec<u8>,
    files_sep: Vec<u8>,
    total: Vec<u8>,
    noop: Vec<u8>,
    kib: Vec<u8>,
    mib: Vec<u8>,
    gib: Vec<u8>,
}

impl Patterns {
    spec fn wf(&self) -> bool {
        &&& self.removed@ == lit_removed()
        &&& self.files_sep@ == lit_files_sep()
        &&& self.total@ == lit_total()
        &&& self.noop@ == lit_noop()
        &&& self.kib@ == lit_kib()
        &&& self.mib@ == lit_mib()
        &&& self.gib@ == lit_gib()
    }

    fn new() -> (p: Patterns)
        ensures
            p.wf(),
    {
        let removed: Vec<u8> = vec![82u8, 101, 109, 111, 118, 101, 100, 32];
        let files_sep: Vec<u8> = vec![32, 102, 105, 108, 101, 115, 44, 32];
        let total: Vec<u8> = vec![32, 116, 111, 116, 97, 108];
        let noop: Vec<u8> = vec![
            82u8, 101, 109, 111, 118, 101, 100, 32, 48, 32, 102, 105, 108, 101,
            115,
        ];
        let kib: Vec<u8> = vec![75u8, 105, 66];
        let mib: Vec<u8> = vec![77u8, 105, 66];
        let gib: Vec<u8> = vec![71u8, 105, 66];
        proof {
            assert(removed@ =~= lit_removed());
            assert(files_sep@ =~= lit_files_sep());
            assert(total@ =~= lit_total());
            assert(noop@ =~= lit_noop());
            assert(kib@ =~= lit_kib());
            assert(mib@ =~= lit_mib());
            assert(gib@ =~= lit_gib());
        }
        Patterns { removed, files_sep, total, noop, kib, mib, gib }
    }
}

/// Does `pat` occur in `t` at position `i`?
fn bytes_match(t: &[u8], i: usize, pat: &Vec<u8>) -> (r: bool)
    requires
        i <= t@.len(),
    ensures
        r == contains_at(t@, i as int, pat@),
{
    let tn = t.len();
    if tn - i < pat.len() {
        return false;
    }
    let mut j: usize = 0;
    while j < pat.len()
        invariant
            tn == t@.len(),
            i + pat@.len() <= tn,
            0 <= j <= pat@.len(),
            forall|k: int| 0 <= k < j ==> t@[i + k] == pat@[k],
        decreases pat@.len() - j,
    {
        if t[i + j] != pat[j] {
            proof {
                let sub = t@.subrange(i as int, i + pat@.len());
                assert(sub[j as int] == t@[i + j]);
            }
            return false;
        }
        j += 1;
    }
    proof {
        assert(t@.subrange(i as int, i + pat@.len()) =~= pat@);
    }
    true
}

/// Finds the end of the maximal digit run starting at `i`.
fn find_run_end(t: &[u8], i: usize) -> (e: usize)
    requires
        i <= t@.len(),
    ensures
        e == run_end(t@, i as int),
        i <= e <= t@.len(),
        forall|k: int| i <= k < e ==> is_digit_byte(#[trigger] t@[k]),
{
    let mut e: usize = i;
    while e < t.len() && 48 <= t[e] && t[e] <= 57
        invariant
            i <= e <= t@.len(),
            forall|k: int| i <= k < e ==> is_digit_byte(#[trigger] t@[k]),
            run_end(t@, i as int) == run_end(t@, e as int),
        decreases t@.len() - e,
    {
        e += 1;
    }
    e
}

/// A digit sequence's value never falls below the value of any of its
/// leading parts, all digits being non-negative.
proof fn lemma_byte_digits_prefix_le(t: Seq<u8>, start: int, mid: int, end: int)
    requires
        0 <= start <= mid <= end <= t.len(),
    ensures
        byte_digits_value(t.subrange(start, mid)) <= byte_digits_value(t.subrange(start, end)),
    decreases end - mid,
{
    if mid < end {
        lemma_byte_digits_prefix_le(t, start, mid + 1, end);
        assert(t.subrange(start, mid + 1).drop_last() =~= t.subrange(start, mid));
        assert(byte_digits_value(t.subrange(start, mid + 1)) == 10 * byte_digits_value(
            t.subrange(start, mid),
        ) + byte_digit(t[mid]));
    } else {
        assert(t.subrange(start, mid) =~= t.subrange(start, end));
    }
}

/// Concatenating digit runs shifts the left run by the right run's length.
proof fn lemma_byte_digits_concat(a: Seq<u8>, b: Seq<u8>)
    ensures
        byte_digits_value(a + b) == byte_digits_value(a) * pow10(b.len()) + byte_digits_value(b),
    decreases b.len(),
{
    if b.len() == 0 {
        assert(a + b =~= a);
        assert(pow10(0) == 1);
        assert(byte_digits_value(b) == 0);
        assert(byte_digits_value(a) * 1 == byte_digits_value(a));
    } else {
        lemma_byte_digits_concat(a, b.drop_last());
        assert((a + b).drop_last() =~= a + b.drop_last());
        assert((a + b).last() == b.last());
        let x = byte_digits_value(a);
        let p = pow10((b.len() - 1) as nat);
        let d = byte_digit(b.last());
        let y = byte_digits_value(b.drop_last());
        assert(byte_digits_value(a + b) == 10 * byte_digits_value((a + b).drop_last()) + byte_digit(
            (a + b).last(),
        ));
        assert(byte_digits_value(a + b.drop_last()) == x * p + y);
        assert(byte_digits_value(b) == 10 * y + d);
        assert(pow10(b.len()) == 10 * p);
        assert(10 * (x * p) == x * (10 * p)) by (nonlinear_arith);
        assert(byte_digits_value(a + b) == x * (10 * p) + (10 * y + d));
        assert(x * pow10(b.len()) == x * (10 * p));
        assert(byte_digits_value(a + b) == x * pow10(b.len()) + byte_digits_value(b));
    }
}

/// Ten to any power is positive.
proof fn lemma_pow10_pos(n: nat)
    ensures
        pow10(n) >= 1,
    decreases n,
{
    if n > 0 {
        lemma_pow10_pos((n - 1) as nat);
    }
}

/// Reads the digit run `t[start..end]` as a number, if it fits.
fn parse_digits(t: &[u8], start: usize, end: usize) -> (r: Option<u64>)
    requires
        start <= end <= t@.len(),
        forall|k: int| start <= k < end ==> is_digit_byte(#[trigger] t@[k]),
    ensures
        match r {
            Some(v) => v == byte_digits_value(t@.subrange(start as int, end as int)),
            None => byte_digits_value(t@.subrange(start as int, end as int)) > u64::MAX,
        },
{
    let mut j: usize = start;
    let mut acc: u64 = 0;
    while j < end
        invariant
            start <= j <= end <= t@.len(),
            forall|k: int| start <= k < end ==> is_digit_byte(#[trigger] t@[k]),
            acc == byte_digits_value(t@.subrange(start as int, j as int)),
        decreases end - j,
    {
        let d = (t[j] - 48) as u64;
        proof {
            assert(t@.subrange(start as int, j + 1).drop_last() =~= t@.subrange(
                start as int,
                j as int,
            ));
            assert(t@.subrange(start as int, j + 1).last() == t@[j as int]);
        }
        let step = match acc.checked_mul(10) {
            Some(m) => m.checked_add(d),
            None => None,
        };
        match step {
            Some(v) => {
                acc = v;
            }
            None => {
                proof {
                    lemma_byte_digits_prefix_le(t@, start as int, j + 1, end as int);
                }
                return None;
            }
        }
        j += 1;
    }
    assert(t@.subrange(start as int, j as int) =~= t@.subrange(start as int, end as int));
    Some(acc)
}

/// Ten to a small power, exactly.
fn pow10_u64(n: usize) -> (r: u64)
    requires
        n <= 6,
    ensures
        r == pow10(n as nat),
{
    proof {
        reveal_with_fuel(pow10, 8);
    }
    if n == 0 {
        1
    } else if n == 1 {
        10
    } else if n == 2 {
        100
    } else if n == 3 {
        1000
    } else if n == 4 {
        10000
    } else if n == 5 {
        100000
    } else {
        1000000
    }
}

/// Tries to read a summary match at position `i`. `None` means no match
/// starts there. A match comes back as the file count and the normalized
/// size, each replaced by `None` where the number does not fit.
fn match_at_exec(t: &[u8], i: usize, pats: &Patterns) -> (r: Option<(Option<u64>, Option<u64>)>)
    requires
        i <= t@.len(),
        pats.wf(),
    ensures
        (r is None) == (match_at(t@, i as int) is None),
        r matches Some(p) ==> match_at(t@, i as int) matches Some(m) && {
            &&& (p.0 is Some) == files_fit(m)
            &&& (p.0 matches Some(f) ==> f == m.0)
            &&& (p.1 is Some) == size_fits(m)
            &&& (p.1 matches Some(s) ==> s == match_size_micro(m))
        },
{
    let tn = t.len();
    if !bytes_match(t, i, &pats.removed) {
        return None;
    }
    assert(i + 8 <= tn);
    let fstart = i + 8;
    let fend = find_run_end(t, fstart);
    if fend == fstart {
        return None;
    }
    if !bytes_match(t, fend, &pats.files_sep) {
        return None;
    }
    assert(fend + 8 <= tn);
    let sstart = fend + 8;
    let send = find_run_end(t, sstart);
    if send == sstart {
        return None;
    }
    let mut fr_end = send;
    let mut frac_len: usize = 0;
    let mut has_frac = false;
    if send < t.len() && t[send] == 46 {
        let e2 = find_run_end(t, send + 1);
        if e2 > send + 1 {
            has_frac = true;
            fr_end = e2;
            frac_len = e2 - (send + 1);
        }
    }
    assert(has_frac == (send < t@.len() && t@[send as int] == 46 && run_end(t@, send + 1) > send
        + 1));
    if t.len() - fr_end < 3 {
        return None;
    }
    let factor: u64 = if bytes_match(t, fr_end, &pats.kib) {
        1
    } else if bytes_match(t, fr_end, &pats.mib) {
        1024
    } else if bytes_match(t, fr_end, &pats.gib) {
        1024 * 1024
    } else {
        proof {
            let u = t@.subrange(fr_end as int, fr_end + 3);
            assert(u != lit_kib() && u != lit_mib() && u != lit_gib());
        }
        return None;
    };
    proof {
        let u = t@.subrange(fr_end as int, fr_end + 3);
        assert(unit_factor(u) == Some(factor as nat));
    }
    if !bytes_match(t, fr_end + 3, &pats.total) {
        return None;
    }
    let ghost m = match_at(t@, i as int)->0;
    assert(m.2 == frac_len && m.3 == factor);

    let files_opt = parse_digits(t, fstart, fend);
    assert(files_opt is Some <==> files_fit(m));

    let int_opt = parse_digits(t, sstart, send);
    let ghost int_sub = t@.subrange(sstart as int, send as int);
    let ghost frac_sub = if has_frac {
        t@.subrange(send + 1, fr_end as int)
    } else {
        Seq::<u8>::empty()
    };
    proof {
        if has_frac {
            lemma_byte_digits_concat(int_sub, frac_sub);
            assert(frac_sub.len() == frac_len);
        }
        lemma_pow10_pos(frac_len as nat);
        lemma_pow10_pos((6 - m.2) as nat);
    }
    let mant_opt: Option<u64> = if !has_frac {
        int_opt
    } else if frac_len > 6 {
        // The size cannot be represented anyway; the mantissa value is
        // not needed.
        None
    } else {
        let p = pow10_u64(frac_len);
        match int_opt {
                None => {
                    proof {
                        let iv = byte_digits_value(int_sub);
                        let pw = pow10(frac_len as nat);
                        assert(iv * pw >= iv * 1 == iv) by (nonlinear_arith)
                            requires
                                pw >= 1,
                                iv >= 0,
                        ;
                    }
                    None
                },
                Some(iv) => {
                    match iv.checked_mul(p) {
                        None => None,
                        Some(x) => {
                            match parse_digits(t, send + 1, fr_end) {
                                None => None,
                                Some(fv) => x.checked_add(fv),
                            }
                        },
                    }
                },
            }
    };
    proof {
        if frac_len <= 6 {
            match mant_opt {
                Some(mv) => {
                    assert(mv == m.1);
                }
                None => {
                    assert(m.1 > u64::MAX);
                }
            }
        }
    }
    let size_opt: Option<u64> = if frac_len > 6 {
        None
    } else {
        match mant_opt {
            None => {
                proof {
                    let f = m.3;
                    let pw = pow10((6 - m.2) as nat);
                    let mant = m.1;
                    assert(mant * f * pw >= mant) by (nonlinear_arith)
                        requires
                            f >= 1,
                            pw >= 1,
                            mant >= 0,
                    ;
                }
                None
            },
            Some(mv) => {
                match mv.checked_mul(factor) {
                    None => {
                        proof {
                            let pw = pow10((6 - m.2) as nat);
                            let mf = m.1 * m.3;
                            assert(mf * pw >= mf) by (nonlinear_arith)
                                requires
                                    pw >= 1,
                                    mf >= 0,
                            ;
                        }
                        None
                    },
                    Some(x) => {
                        let pw2 = pow10_u64(6 - frac_len);
                        x.checked_mul(pw2)
                    },
                }
            },
        }
    };
    assert(size_opt is Some <==> size_fits(m));
    Some((files_opt, size_opt))
}

/// The leftmost match is unchanged by skipping positions where nothing
/// matches.
proof fn lemma_first_match_skip(t: Seq<u8>, i: int)
    requires
        0 <= i <= t.len(),
        forall|j: int| 0 <= j < i ==> match_at(t, j) is None,
    ensures
        first_match_from(t, 0) == first_match_from(t, i),
    decreases i,
{
    if i > 0 {
        lemma_first_match_skip(t, i - 1);
    }
}

/// Parses the captured diagnostic text of one cleanup invocation.
pub fn parse_clean_output(text: &[u8]) -> (r: CleanOutcome)
    ensures
        r == parse_spec(text@),
{
    let pats = Patterns::new();
    // The no-op phrase short-circuits everything else.
    let mut i: usize = 0;
    while i < text.len()
        invariant
            pats.wf(),
            0 <= i <= text@.len(),
            forall|j: int| 0 <= j < i ==> !contains_at(text@, j, lit_noop()),
        decreases text@.len() - i,
    {
        if bytes_match(text, i, &pats.noop) {
            return CleanOutcome::NoOpRemoved;
        }
        i += 1;
    }
    proof {
        assert forall|j: int| !contains_at(text@, j, lit_noop()) by {
            if 0 <= j < text@.len() {
            } else {
                assert(lit_noop().len() == 15);
            }
        }
    }
    // Scan for the leftmost summary match.
    let mut i2: usize = 0;
    while i2 < text.len()
        invariant
            pats.wf(),
            0 <= i2 <= text@.len(),
            !contains_lit(text@, lit_noop()),
            forall|j: int| 0 <= j < i2 ==> match_at(text@, j) is None,
        decreases text@.len() - i2,
    {
        match match_at_exec(text, i2, &pats) {
            Some((files_opt, size_opt)) => {
                proof {
                    lemma_first_match_skip(text@, i2 as int);
                }
                match (files_opt, size_opt) {
                    (Some(files), Some(size_micro_kib)) => {
                        return CleanOutcome::Removed { files, size_micro_kib };
                    }
                    _ => {
                        return CleanOutcome::Unparseable;
                    }
                }
            }
            None => {
                i2 += 1;
            }
        }
    }
    proof {
        lemma_first_match_skip(text@, text@.len() as int);
    }
    CleanOutcome::Unparseable
}

/// Law: when the text holds no no-op phrase and its leftmost summary
/// match carries representable numbers, parsing returns exactly that
/// match's file count and its decimal size value times the unit factor,
/// in millionths of a kibibyte.
pub proof fn lemma_size_normalization(t: Seq<u8>, m: (nat, nat, nat, nat))
    requires
        !contains_lit(t, lit_noop()),
        first_match_from(t, 0) == Some(m),
        files_fit(m),
        size_fits(m),
    ensures
        parse_spec(t) == (CleanOutcome::Removed {
            files: m.0 as u64,
            size_micro_kib: (m.1 * m.3 * pow10((6 - m.2) as nat)) as u64,
        }),
{
}

/// Law: parsing is a function of the text alone, so reading the same text
/// twice yields the same outcome.
pub proof fn lemma_parse_idempotent(t: Seq<u8>, r1: CleanOutcome, r2: CleanOutcome)
    requires
        r1 == parse_spec(t),
        r2 == parse_spec(t),
    ensures
        r1 == r2,
{
}

} // verus!
