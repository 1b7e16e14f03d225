//! Byte units, the traffic-limit grammar, and display scaling.
//!
//! A traffic limit is written as a decimal number with a `KB`, `MB`, `GB` or
//! `TB` suffix (powers of 1024); spaces, commas and underscores may separate
//! digit groups. The number may carry a fraction, but after scaling it must
//! come to a whole number of bytes.

use vstd::prelude::*;
use vstd::arithmetic::div_mod::{lemma_div_is_ordered, lemma_div_is_ordered_by_denominator};
use vstd::string::StrSliceExecFns;
use crate::error::ConfigError;

verus! {

/// Bytes in a kilobyte (1024-based, as the limit suffixes are).
pub const KB: u64 = 1024;

/// Bytes in a megabyte.
pub const MB: u64 = KB * 1024;

/// Bytes in a gigabyte.
pub const GB: u64 = MB * 1024;

/// Bytes in a terabyte.
pub const TB: u64 = GB * 1024;

/// Digits kept in a limit number before it is rejected as over-long.
pub const LIMIT_DIGITS: u64 = 26;

/// Whether `c` is a decimal digit.
pub open spec fn is_digit_char(c: char) -> bool {
    48 <= c as u32 <= 57
}

/// Numeric value of a decimal digit.
pub open spec fn digit_val(c: char) -> int {
    c as u32 - 48
}

/// Whether `c` survives the stripping of group separators.
pub open spec fn kept_char(c: char) -> bool {
    c != ' ' && c != ',' && c != '_'
}

/// `s` with spaces, commas and underscores removed.
pub open spec fn cleaned_chars(s: Seq<char>) -> Seq<char>
    decreases s.len(),
{
    if s.len() == 0 {
        Seq::empty()
    } else {
        let rest = cleaned_chars(s.drop_last());
        if kept_char(s.last()) {
            rest.push(s.last())
        } else {
            rest
        }
    }
}

/// Left-to-right scan of a decimal number: `(well-formed so far, a dot was
/// seen, a digit was seen, value of the digits, digits after the dot)`.
pub open spec fn num_scan(s: Seq<char>) -> (bool, bool, bool, int, int)
    decreases s.len(),
{
    if s.len() == 0 {
        (true, false, false, 0, 0)
    } else {
        let r = num_scan(s.drop_last());
        let c = s.last();
        if is_digit_char(c) {
            (r.0, r.1, true, r.3 * 10 + digit_val(c), if r.1 {
                r.4 + 1
            } else {
                r.4
            })
        } else if c == '.' {
            (r.0 && !r.1, true, r.2, r.3, r.4)
        } else {
            (false, r.1, r.2, r.3, r.4)
        }
    }
}

/// Ten to the `k`.
pub open spec fn pow10(k: nat) -> int
    decreases k,
{
    if k == 0 {
        1
    } else {
        10 * pow10((k - 1) as nat)
    }
}

/// Bytes per unit named by the two suffix characters.
pub open spec fn unit_factor(c1: char, c2: char) -> Option<int> {
    if c2 == 'B' {
        if c1 == 'K' {
            Some(KB as int)
        } else if c1 == 'M' {
            Some(MB as int)
        } else if c1 == 'G' {
            Some(GB as int)
        } else if c1 == 'T' {
            Some(TB as int)
        } else {
            None
        }
    } else {
        None
    }
}

/// What a traffic-limit string means: the number of bytes, or nothing when
/// the string is rejected. Numbers of more than `LIMIT_DIGITS` digits or
/// more than 28 fraction digits are rejected as over-long.
pub open spec fn spec_parse_limit(s: Seq<char>) -> Option<u64> {
    let t = cleaned_chars(s);
    if t.len() < 3 {
        None
    } else {
        let num = num_scan(t.subrange(0, t.len() - 2));
        match unit_factor(t[t.len() - 2], t[t.len() - 1]) {
            Some(u) => {
                if num.0 && num.2 && num.4 <= 28 && num.3 <= pow10(LIMIT_DIGITS as nat) && (num.3
                    * u) % pow10(num.4 as nat) == 0 && (num.3 * u) / pow10(num.4 as nat)
                    <= u64::MAX {
                    Some(((num.3 * u) / pow10(num.4 as nat)) as u64)
                } else {
                    None
                }
            },
            None => None,
        }
    }
}

/// Ten to the `k` is positive.
pub proof fn lemma_pow10_pos(k: nat)
    ensures
        pow10(k) >= 1,
    decreases k,
{
    if k > 0 {
        lemma_pow10_pos((k - 1) as nat);
    }
}

/// Ten to the `k` grows with `k`.
pub proof fn lemma_pow10_mono(a: nat, b: nat)
    requires
        a <= b,
    ensures
        pow10(a) <= pow10(b),
    decreases b,
{
    if a < b {
        lemma_pow10_mono(a, (b - 1) as nat);
        lemma_pow10_pos((b - 1) as nat);
    }
}

/// The digit value of a number scan never shrinks as the scan goes on.
pub proof fn lemma_num_scan_nonneg(s: Seq<char>)
    ensures
        num_scan(s).3 >= 0,
        num_scan(s).4 >= 0,
    decreases s.len(),
{
    if s.len() > 0 {
        lemma_num_scan_nonneg(s.drop_last());
        let r = num_scan(s.drop_last());
        if is_digit_char(s.last()) {
            assert(r.3 * 10 >= r.3) by (nonlinear_arith)
                requires
                    r.3 >= 0,
            ;
        }
    }
}

/// Computes ten to the `k`.
pub fn pow10_exec(k: u64) -> (r: u128)
    requires
        k <= 28,
    ensures
        r == pow10(k as nat),
        r >= 1,
{
    proof {
        lemma_pow10_pos(k as nat);
    }
    let mut r: u128 = 1;
    let mut i: u64 = 0;
    while i < k
        invariant
            i <= k <= 28,
            r == pow10(i as nat),
        decreases k - i,
    {
        proof {
            lemma_pow10_mono(i as nat, 27);
            assert(pow10(27) == 1000000000000000000000000000) by {
                reveal_with_fuel(pow10, 28);
            }
        }
        r = r * 10;
        i = i + 1;
    }
    r
}

/// Parses a traffic-limit string such as `"100GB"` or `"1.5 TB"` to a number
/// of bytes.
pub fn parse_traffic_limit(s: &str) -> (r: Result<u64, ConfigError>)
    ensures
        match r {
            Ok(v) => spec_parse_limit(s@) == Some(v),
            Err(e) => spec_parse_limit(s@) is None && e == ConfigError::BadTrafficLimit,
        },
{
    let n0: usize = s.unicode_len();
    let mut t: Vec<char> = Vec::new();
    let mut i: usize = 0;
    while i < n0
        invariant
            i <= n0,
            n0 == s@.len(),
            t@ == cleaned_chars(s@.take(i as int)),
        decreases n0 - i,
    {
        let c = s.get_char(i);
        proof {
            assert(s@.take(i + 1).drop_last() =~= s@.take(i as int));
            assert(s@.take(i + 1).last() == s@[i as int]);
        }
        if c != ' ' && c != ',' && c != '_' {
            t.push(c);
        }
        i = i + 1;
    }
    proof {
        assert(s@.take(n0 as int) =~= s@);
    }
    let len: usize = t.len();
    if len < 3 {
        return Err(ConfigError::BadTrafficLimit);
    }
    let c1: char = t[len - 2];
    let c2: char = t[len - 1];
    if c2 != 'B' {
        return Err(ConfigError::BadTrafficLimit);
    }
    let unit: u64 = if c1 == 'K' {
        KB
    } else if c1 == 'M' {
        MB
    } else if c1 == 'G' {
        GB
    } else {
        if c1 != 'T' {
            return Err(ConfigError::BadTrafficLimit);
        }
        TB
    };
    proof {
        assert(pow10(LIMIT_DIGITS as nat) == 100000000000000000000000000) by {
            reveal_with_fuel(pow10, 27);
        }
    }
    let cap: u128 = 100000000000000000000000000;
    let mut ok: bool = true;
    let mut dot: bool = false;
    let mut dig: bool = false;
    let mut nval: u128 = 0;
    let mut kk: u64 = 0;
    let mut too_big: bool = false;
    let mut j: usize = 0;
    let ghost num_part = t@.subrange(0, len - 2);
    while j < len - 2
        invariant
            j <= len - 2 < len == t@.len(),
            num_part == t@.subrange(0, len - 2),
            ok == num_scan(t@.subrange(0, j as int)).0,
            dot == num_scan(t@.subrange(0, j as int)).1,
            dig == num_scan(t@.subrange(0, j as int)).2,
            too_big ==> num_scan(t@.subrange(0, j as int)).3 > cap,
            !too_big ==> nval == num_scan(t@.subrange(0, j as int)).3 && nval <= cap,
            kk == if num_scan(t@.subrange(0, j as int)).4 <= 29 {
                num_scan(t@.subrange(0, j as int)).4
            } else {
                29
            },
            cap == 100000000000000000000000000,
        decreases len - 2 - j,
    {
        let c: char = t[j];
        proof {
            assert(t@.subrange(0, j + 1).drop_last() =~= t@.subrange(0, j as int));
            assert(t@.subrange(0, j + 1).last() == t@[j as int]);
            lemma_num_scan_nonneg(t@.subrange(0, j as int));
        }
        let cu: u32 = c as u32;
        if 48 <= cu && cu <= 57 {
            let d: u128 = (cu - 48) as u128;
            if too_big {
                proof {
                    let old_n = num_scan(t@.subrange(0, j as int)).3;
                    assert(old_n * 10 + digit_val(c) > cap) by (nonlinear_arith)
                        requires
                            old_n > cap,
                            digit_val(c) >= 0,
                            cap > 0,
                    ;
                }
            } else if nval > (cap - d) / 10 {
                proof {
                    let old_n = num_scan(t@.subrange(0, j as int)).3;
                    assert(old_n * 10 + digit_val(c) > cap) by (nonlinear_arith)
                        requires
                            old_n == nval,
                            nval > (cap - d) / 10,
                            d == digit_val(c),
                            0 <= d <= 9,
                            cap == 100000000000000000000000000,
                    ;
                }
                too_big = true;
            } else {
                proof {
                    assert(nval * 10 + d <= cap) by (nonlinear_arith)
                        requires
                            nval <= (cap - d) / 10,
                            0 <= d <= 9,
                            cap == 100000000000000000000000000,
                    ;
                }
                nval = nval * 10 + d;
            }
            dig = true;
            if dot && kk < 29 {
                kk = kk + 1;
            }
        } else if c == '.' {
            ok = ok && !dot;
            dot = true;
        } else {
            ok = false;
        }
        j = j + 1;
    }
    proof {
        assert(t@.subrange(0, (len - 2) as int) == num_part);
        lemma_num_scan_nonneg(num_part);
    }
    if !ok || !dig {
        return Err(ConfigError::BadTrafficLimit);
    }
    if kk > 28 {
        return Err(ConfigError::BadTrafficLimit);
    }
    if too_big {
        return Err(ConfigError::BadTrafficLimit);
    }
    let p: u128 = pow10_exec(kk);
    proof {
        assert(nval * (unit as u128) <= 100000000000000000000000000u128 * 1099511627776u128)
            by (nonlinear_arith)
            requires
                nval <= 100000000000000000000000000u128,
                unit <= 1099511627776u128,
        ;
    }
    let prod: u128 = nval * (unit as u128);
    if prod % p != 0 {
        return Err(ConfigError::BadTrafficLimit);
    }
    let q: u128 = prod / p;
    if q > u64::MAX as u128 {
        return Err(ConfigError::BadTrafficLimit);
    }
    Ok(q as u64)
}

/// The unit a byte count is shown in.
#[derive(Clone, Copy, PartialEq, Eq, Structural, Debug)]
pub enum TrafficUnit {
    Bytes,
    Kilobytes,
    Megabytes,
    Gigabytes,
    Terabytes,
}

impl TrafficUnit {
    /// The suffix written after the scaled value.
    pub fn suffix(&self) -> (r: &'static str)
        ensures
            r@.len() > 0,
    {
        let r = match self {
            TrafficUnit::Bytes => "B",
            TrafficUnit::Kilobytes => "KB",
            TrafficUnit::Megabytes => "MB",
            TrafficUnit::Gigabytes => "GB",
            TrafficUnit::Terabytes => "TB",
        };
        proof {
            reveal_strlit("B");
            reveal_strlit("KB");
            reveal_strlit("MB");
            reveal_strlit("GB");
            reveal_strlit("TB");
        }
        r
    }
}

/// `b` scaled to `unit` in hundredths, rounding half up.
pub open spec fn scaled_hundredths(b: int, unit: int) -> int {
    (200 * b + unit) / (2 * unit)
}

/// Picks a display unit for a byte count: bytes exactly below one kilobyte,
/// otherwise hundredths of the largest unit the count reaches.
pub fn traffic_show(bytes: u64) -> (r: (TrafficUnit, u64))
    ensures
        bytes < KB ==> r == (TrafficUnit::Bytes, bytes),
        KB <= bytes < MB ==> r.0 == TrafficUnit::Kilobytes && r.1 == scaled_hundredths(
            bytes as int,
            KB as int,
        ),
        MB <= bytes < GB ==> r.0 == TrafficUnit::Megabytes && r.1 == scaled_hundredths(
            bytes as int,
            MB as int,
        ),
        GB <= bytes < TB ==> r.0 == TrafficUnit::Gigabytes && r.1 == scaled_hundredths(
            bytes as int,
            GB as int,
        ),
        TB <= bytes ==> r.0 == TrafficUnit::Terabytes && r.1 == scaled_hundredths(
            bytes as int,
            TB as int,
        ),
{
    if bytes < KB {
        (TrafficUnit::Bytes, bytes)
    } else if bytes < MB {
        (TrafficUnit::Kilobytes, scale_to(bytes, KB))
    } else if bytes < GB {
        (TrafficUnit::Megabytes, scale_to(bytes, MB))
    } else if bytes < TB {
        (TrafficUnit::Gigabytes, scale_to(bytes, GB))
    } else {
        (TrafficUnit::Terabytes, scale_to(bytes, TB))
    }
}

/// Scales `bytes` to hundredths of `unit`, rounding half up.
fn scale_to(bytes: u64, unit: u64) -> (r: u64)
    requires
        1024 <= unit,
    ensures
        r == scaled_hundredths(bytes as int, unit as int),
{
    let num: u128 = 200 * (bytes as u128) + (unit as u128);
    let den: u128 = 2 * (unit as u128);
    let q: u128 = num / den;
    proof {
        lemma_div_is_ordered_by_denominator(num as int, 2048, den as int);
        lemma_div_is_ordered(num as int, 201int * 0xffff_ffff_ffff_ffff, 2048);
    }
    (q as u128) as u64
}

/// `num * 100 / den`, rounded half up, with the sign kept.
pub open spec fn rounded_percent(num: int, den: int) -> int {
    if num >= 0 {
        (200 * num + den) / (2 * den)
    } else {
        -((200 * (-num) + den) / (2 * den))
    }
}

/// Computes `num * 100 / den` rounded half up, keeping the sign of `num`.
pub fn signed_percent(num: i128, den: u64) -> (r: i128)
    requires
        den >= 1,
        -0xffff_ffff_ffff_ffff <= num <= 0xffff_ffff_ffff_ffff,
    ensures
        r == rounded_percent(num as int, den as int),
{
    let mag: i128 = if num >= 0 {
        num
    } else {
        -num
    };
    let q: i128 = (200 * mag + den as i128) / (2 * den as i128);
    proof {
        lemma_div_is_ordered_by_denominator(200 * mag + den as int, 2, 2 * den as int);
        lemma_div_is_ordered(200 * mag + den as int, 201int * 0xffff_ffff_ffff_ffff, 2);
        vstd::arithmetic::div_mod::lemma_div_pos_is_pos(200 * mag + den as int, 2 * den as int);
    }
    if num >= 0 {
        q
    } else {
        -q
    }
}

} // verus!
