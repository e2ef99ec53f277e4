//! Decimal numbers in text, as the catalogue file writes them.
use vstd::prelude::*;
use vstd::string::StringSliceAdditionalSpecFns;

verus! {

pub open spec fn is_digit(c: u8) -> bool {
    48 <= c <= 57
}

pub open spec fn pow10(n: nat) -> int
    decreases n,
{
    if n == 0 { 1 } else { 10 * pow10((n - 1) as nat) }
}

/// Reads `s` left to right: the digits so far as one integer, the power of
/// ten that the digits after the point make, and whether a point was seen.
/// `None` for any byte but a digit or a single point.
pub open spec fn scan(s: Seq<u8>) -> Option<(int, int, bool)>
    decreases s.len(),
{
    if s.len() == 0 {
        Some((0, 1, false))
    } else {
        match scan(s.drop_last()) {
            None => None,
            Some((m, sc, dot)) => {
                let c = s.last();
                if is_digit(c) {
                    Some((m * 10 + (c - 48), if dot { sc * 10 } else { sc }, dot))
                } else if c == 46 && !dot {
                    Some((m, sc, true))
                } else {
                    None
                }
            },
        }
    }
}

/// A decimal `digits[.digits]` of at most 19 bytes, as `(m, scale)` with
/// value `m / scale`.
pub open spec fn decimal_spec(s: Seq<u8>) -> Option<(int, int)> {
    if 1 <= s.len() <= 19 && is_digit(s[0]) && scan(s) is Some {
        Some((scan(s).unwrap().0, scan(s).unwrap().1))
    } else {
        None
    }
}

/// An unsigned integer of at most 19 digits.
pub open spec fn uint_spec(s: Seq<u8>) -> Option<int> {
    match decimal_spec(s) {
        Some((m, sc)) => if scan(s).unwrap().2 { None } else { Some(m) },
        None => None,
    }
}

proof fn lemma_pow10_grows(n: nat)
    ensures
        pow10(n) >= 1,
        pow10(n + 1) == 10 * pow10(n),
    decreases n,
{
    if n > 0 {
        lemma_pow10_grows((n - 1) as nat);
    }
}

proof fn lemma_scan_bounds(s: Seq<u8>)
    requires
        scan(s) is Some,
    ensures
        0 <= scan(s).unwrap().0 < pow10(s.len()),
        1 <= scan(s).unwrap().1 <= pow10(s.len()),
    decreases s.len(),
{
    lemma_pow10_grows(s.len());
    if s.len() > 0 {
        lemma_scan_bounds(s.drop_last());
        lemma_pow10_grows((s.len() - 1) as nat);
    }
}

/// Reads a decimal number from its text.
pub fn parse_decimal(text: &str) -> (r: Option<(u64, u64)>)
    ensures
        match r {
            Some((m, sc)) => decimal_spec(text.spec_bytes()) == Some((m as int, sc as int)) && sc >= 1,
            None => decimal_spec(text.spec_bytes()) is None,
        },
{
    let (r, _) = scan_text(text);
    r
}

/// Reads an unsigned integer from its text.
pub fn parse_uint(text: &str) -> (r: Option<u64>)
    ensures
        match r {
            Some(v) => uint_spec(text.spec_bytes()) == Some(v as int),
            None => uint_spec(text.spec_bytes()) is None,
        },
{
    let (r, dot) = scan_text(text);
    match r {
        Some((m, _)) => if dot { None } else { Some(m) },
        None => None,
    }
}

fn scan_text(text: &str) -> (r: (Option<(u64, u64)>, bool))
    ensures
        match r.0 {
            Some((m, sc)) => decimal_spec(text.spec_bytes()) == Some((m as int, sc as int))
                && r.1 == scan(text.spec_bytes()).unwrap().2 && sc >= 1,
            None => decimal_spec(text.spec_bytes()) is None,
        },
{
    let b = text.as_bytes();
    let n = b.len();
    if n == 0 || n > 19 || b[0] < 48 || b[0] > 57 {
        return (None, false);
    }
    let mut m: u64 = 0;
    let mut sc: u64 = 1;
    let mut dot = false;
    let mut i: usize = 0;
    proof {
        lemma_pow10_grows(19);
        reveal_with_fuel(pow10, 20);
        assert(pow10(19) == 10000000000000000000);
    }
    while i < n
        invariant
            n == b@.len(),
            b@ == text.spec_bytes(),
            1 <= n <= 19,
            i <= n,
            pow10(19) == 10000000000000000000,
            scan(b@.subrange(0, i as int)) == Some((m as int, sc as int, dot)),
        decreases n - i,
    {
        let ghost pre = b@.subrange(0, i as int);
        let ghost next = b@.subrange(0, i + 1);
        assert(next.drop_last() =~= pre);
        proof {
            lemma_scan_bounds(pre);
            lemma_pow10_mono(i as nat, 18);
        }
        let c = b[i];
        if c >= 48 && c <= 57 {
            m = m * 10 + (c - 48) as u64;
            if dot {
                sc = sc * 10;
            }
        } else if c == 46 && !dot {
            dot = true;
        } else {
            assert(scan(next) is None);
            proof { lemma_scan_none_extends(b@, i as int + 1); }
            return (None, false);
        }
        i = i + 1;
    }
    assert(b@.subrange(0, n as int) =~= b@);
    proof { lemma_scan_bounds(b@); }
    (Some((m, sc)), dot)
}

proof fn lemma_pow10_mono(a: nat, b: nat)
    requires
        a <= b,
    ensures
        pow10(a) <= pow10(b),
    decreases b,
{
    lemma_pow10_grows(b);
    if a < b {
        lemma_pow10_mono(a, (b - 1) as nat);
        lemma_pow10_grows((b - 1) as nat);
    }
}

/// Once a prefix fails to scan, the whole text fails.
proof fn lemma_scan_none_extends(s: Seq<u8>, k: int)
    requires
        0 <= k <= s.len(),
        scan(s.subrange(0, k)) is None,
    ensures
        scan(s) is None,
    decreases s.len() - k,
{
    if k < s.len() {
        assert(s.subrange(0, k + 1).drop_last() =~= s.subrange(0, k));
        lemma_scan_none_extends(s, k + 1);
    } else {
        assert(s.subrange(0, k) =~= s);
    }
}

} // verus!
