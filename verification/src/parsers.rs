//! Argument value parsers: the pure parsing rules behind the
//! command-line value types.

use vstd::prelude::*;
use vstd::string::StringSliceAdditionalSpecFns;
use vstd::string::StrSliceExecFns;
use crate::bytes::dec_of;

verus! {

/// Whether the byte is a decimal digit.
pub open spec fn is_digit(c: u8) -> bool {
    48 <= c <= 57
}

/// Whether the string is one or more decimal digits.
pub open spec fn all_digits(s: Seq<u8>) -> bool {
    s.len() > 0 && forall|i: int| 0 <= i < s.len() ==> is_digit(#[trigger] s[i])
}

/// The number the digits denote, most significant first.
pub open spec fn dec_val(s: Seq<u8>) -> nat
    decreases s.len(),
{
    if s.len() == 0 {
        0
    } else {
        (dec_val(s.take(s.len() - 1)) * 10 + (s.last() - 48)) as nat
    }
}

/// A longer digit string never denotes a smaller number.
proof fn lemma_dec_val_monotone(s: Seq<u8>, i: int)
    requires
        0 <= i <= s.len(),
        forall|j: int| 0 <= j < s.len() ==> is_digit(#[trigger] s[j]),
    ensures
        dec_val(s.take(i)) <= dec_val(s),
    decreases s.len() - i,
{
    if i < s.len() {
        lemma_dec_val_monotone(s, i + 1);
        let t = s.take(i + 1);
        assert(t.take(t.len() - 1) =~= s.take(i));
        assert(t.last() == s[i]);
        assert(dec_val(s.take(i)) <= dec_val(s.take(i + 1)));
    } else {
        assert(s.take(i) =~= s);
    }
}

/// Parse a decimal number: all digits, in range.
pub fn parse_u32(s: &[u8]) -> (r: Option<u32>)
    ensures
        match r {
            Some(v) => all_digits(s@) && v == dec_val(s@) && dec_val(s@) <= u32::MAX,
            None => !all_digits(s@) || dec_val(s@) > u32::MAX,
        },
{
    if s.len() == 0 {
        return None;
    }
    let mut acc: u32 = 0;
    let mut i: usize = 0;
    while i < s.len()
        invariant
            i <= s@.len(),
            s@.len() > 0,
            forall|j: int| 0 <= j < i ==> is_digit(#[trigger] s@[j]),
            acc == dec_val(s@.take(i as int)),
        decreases s@.len() - i,
    {
        let c = s[i];
        if c < 48 || c > 57 {
            return None;
        }
        let d = (c - 48) as u32;
        proof {
            let t = s@.take(i + 1);
            assert(t.take(t.len() - 1) =~= s@.take(i as int));
            assert(t.last() == s@[i as int]);
        }
        if acc > (u32::MAX - d) / 10 {
            proof {
                assert(forall|j: int| 0 <= j < i + 1 ==> is_digit(#[trigger] s@[j]));
                if all_digits(s@) {
                    lemma_dec_val_monotone(s@, i + 1);
                }
            }
            return None;
        }
        acc = acc * 10 + d;
        i = i + 1;
    }
    proof {
        assert(s@.take(s@.len() as int) =~= s@);
    }
    Some(acc)
}

/// Powers of ten.
pub open spec fn pow10(n: nat) -> nat
    decreases n,
{
    if n == 0 {
        1
    } else {
        10 * pow10((n - 1) as nat)
    }
}

/// What the rename-fraction argument denotes, as an exact rational:
/// `d%` is d over one hundred, a bare number d is the decimal fraction
/// written `0.d`, so d over ten to the number of digits d prints with.
pub open spec fn spec_rename_fraction(s: Seq<u8>) -> Option<(u32, u64)> {
    if s.len() >= 2 && s.last() == 37 && all_digits(s.take(s.len() - 1)) && dec_val(
        s.take(s.len() - 1),
    ) <= u32::MAX {
        Some(((dec_val(s.take(s.len() - 1)) as u32), 100u64))
    } else if all_digits(s) && dec_val(s) <= u32::MAX {
        Some(((dec_val(s) as u32), pow10(dec_of(dec_val(s)).len()) as u64))
    } else {
        None
    }
}

/// The percentage-or-decimal fraction parser behind the rename limit
/// argument.
#[derive(Clone, Copy, PartialEq, Eq, Structural, Debug)]
pub struct ParseRenameFraction;

impl ParseRenameFraction {
    /// Parse a fraction: `50%` is half, a bare `5` reads as the
    /// decimal fraction `0.5`, `75` as `0.75`. The result is the exact
    /// pair of numerator and denominator.
    pub fn parse(s: &str) -> (r: Option<(u32, u64)>)
        ensures
            r == spec_rename_fraction(s.spec_bytes()),
    {
        let b = s.as_bytes_vec();
        let n = b.len();
        if n >= 2 && b[n - 1] == 37 {
            let digits = crate::trees::sub_bytes(b.as_slice(), 0, n - 1);
            proof {
                assert(digits@ =~= s.spec_bytes().take(s.spec_bytes().len() - 1));
            }
            match parse_u32(digits.as_slice()) {
                Some(v) => Some((v, 100)),
                None => None,
            }
        } else {
            match parse_u32(b.as_slice()) {
                Some(v) => {
                    let digits = crate::bytes::u64_to_dec(v as u64);
                    let mut den: u64 = 1;
                    let mut k: usize = 0;
                    proof {
                        assert(dec_of(v as nat).len() <= 10) by {
                            assert(pow10(0) == 1);
                            assert(pow10(1) == 10);
                            assert(pow10(2) == 100);
                            assert(pow10(3) == 1000);
                            assert(pow10(4) == 10000);
                            assert(pow10(5) == 100000);
                            assert(pow10(6) == 1000000);
                            assert(pow10(7) == 10000000);
                            assert(pow10(8) == 100000000);
                            assert(pow10(9) == 1000000000);
                            assert(pow10(10) == 10000000000);
                            lemma_dec_of_len_le(v as nat, 10);
                        }
                    }
                    while k < digits.len()
                        invariant
                            k <= digits@.len(),
                            digits@.len() <= 10,
                            digits@ == dec_of(v as nat),
                            den == pow10(k as nat),
                            den <= 0x2540be400u64,
                        decreases digits@.len() - k,
                    {
                        proof {
                            lemma_pow10_le(k as nat, 10);
                        }
                        den = den * 10;
                        k = k + 1;
                    }
                    proof {
                        if n >= 2 && s.spec_bytes().last() == 37 {
                            assert(!is_digit(37u8));
                            assert(!all_digits(s.spec_bytes()));
                        }
                    }
                    Some((v, den))
                },
                None => {
                    proof {
                        if n >= 2 && s.spec_bytes().last() == 37 {
                            assert(!is_digit(37u8));
                            assert(!all_digits(s.spec_bytes()));
                        }
                    }
                    None
                },
            }
        }
    }
}

/// A number up to the unsigned 32-bit range prints with at most ten
/// digits.
proof fn lemma_dec_of_len_le(n: nat, k: nat)
    requires
        n < pow10(k),
    ensures
        dec_of(n).len() <= k || k == 0,
    decreases n,
{
    if n < 10 {
        if k >= 1 {
            assert(pow10(1) == 10) by {
                assert(pow10(0) == 1);
            }
            lemma_pow10_monotone(1, k);
        }
    } else {
        assert(k >= 2) by {
            if k < 2 {
                if k == 0 {
                } else {
                    assert(pow10(1) == 10) by {
                        assert(pow10(0) == 1);
                    }
                }
            }
        }
        lemma_dec_of_len_le(n / 10, (k - 1) as nat);
    }
}

proof fn lemma_pow10_monotone(a: nat, b: nat)
    requires
        a <= b,
    ensures
        pow10(a) <= pow10(b),
    decreases b,
{
    if a < b {
        lemma_pow10_monotone(a, (b - 1) as nat);
        assert(pow10(b) == 10 * pow10((b - 1) as nat));
    }
}

proof fn lemma_pow10_le(k: nat, cap: nat)
    requires
        k < cap,
        cap == 10,
    ensures
        pow10(k) * 10 <= 0x2540be400,
    decreases k,
{
    lemma_pow10_monotone(k, 9);
    assert(pow10(0) == 1);
    assert(pow10(1) == 10);
    assert(pow10(2) == 100);
    assert(pow10(3) == 1000);
    assert(pow10(4) == 10000);
    assert(pow10(5) == 100000);
    assert(pow10(6) == 1000000);
    assert(pow10(7) == 10000000);
    assert(pow10(8) == 100000000);
    assert(pow10(9) == 1000000000);
}

/// What the range argument denotes: two numbers split on the first
/// comma, in order.
pub open spec fn spec_range(s: Seq<u8>) -> Option<(u32, u32)> {
    if exists|i: int| 0 <= i < s.len() && s[i] == 44 {
        let i = comma_pos(s, 0);
        let a = s.take(i);
        let b = s.skip(i + 1);
        if all_digits(a) && dec_val(a) <= u32::MAX && all_digits(b) && dec_val(b) <= u32::MAX
            && dec_val(a) <= dec_val(b) {
            Some(((dec_val(a) as u32), (dec_val(b) as u32)))
        } else {
            None
        }
    } else {
        None
    }
}

/// The position of the first comma at or after `i`.
pub open spec fn comma_pos(s: Seq<u8>, i: int) -> int
    decreases s.len() - i,
{
    if i >= s.len() || i < 0 {
        s.len() as int
    } else if s[i] == 44 {
        i
    } else {
        comma_pos(s, i + 1)
    }
}

proof fn lemma_comma_pos(s: Seq<u8>, i: int)
    requires
        0 <= i <= s.len(),
    ensures
        i <= comma_pos(s, i) <= s.len(),
        comma_pos(s, i) < s.len() ==> s[comma_pos(s, i)] == 44,
        forall|j: int| i <= j < comma_pos(s, i) ==> s[j] != 44,
    decreases s.len() - i,
{
    if i < s.len() && s[i] != 44 {
        lemma_comma_pos(s, i + 1);
    }
}

/// The inclusive-range parser behind the line-range argument.
#[derive(Clone, Copy, PartialEq, Eq, Structural, Debug)]
pub struct AsRange;

impl AsRange {
    /// Parse `start,end` with both bounds decimal and start no larger
    /// than end.
    pub fn parse(s: &str) -> (r: Option<(u32, u32)>)
        ensures
            r == spec_range(s.spec_bytes()),
    {
        let b = s.as_bytes_vec();
        let ghost sv = s.spec_bytes();
        let mut i: usize = 0;
        proof {
            lemma_comma_pos(sv, 0);
        }
        while i < b.len() && b[i] != 44
            invariant
                i <= b@.len(),
                b@ == sv,
                comma_pos(sv, 0) == comma_pos(sv, i as int),
            decreases b@.len() - i,
        {
            i = i + 1;
        }
        if i == b.len() {
            proof {
                assert(forall|j: int| 0 <= j < sv.len() ==> sv[j] != 44) by {
                    lemma_comma_pos(sv, 0);
                }
            }
            return None;
        }
        proof {
            assert(exists|k: int| 0 <= k < sv.len() && sv[k] == 44) by {
                assert(sv[i as int] == 44);
            }
        }
        let a = crate::trees::sub_bytes(b.as_slice(), 0, i);
        let c = crate::trees::sub_bytes(b.as_slice(), i + 1, b.len());
        proof {
            assert(a@ =~= sv.take(i as int));
            assert(c@ =~= sv.skip(i + 1));
        }
        let start = match parse_u32(a.as_slice()) {
            Some(v) => v,
            None => {
                return None;
            },
        };
        let end = match parse_u32(c.as_slice()) {
            Some(v) => v,
            None => {
                return None;
            },
        };
        if start <= end {
            Some((start, end))
        } else {
            None
        }
    }
}

/// The hash kinds an argument can name.
#[derive(Clone, Copy, PartialEq, Eq, Structural, Debug)]
pub enum HashKind {
    Sha1,
}

/// The hash-kind parser behind the object-hash argument.
#[derive(Clone, Copy, PartialEq, Eq, Structural, Debug)]
pub struct AsHashKind;

impl AsHashKind {
    /// Parse a hash-kind name: only `SHA1` (or `sha1`) is known.
    pub fn parse(s: &str) -> (r: Option<HashKind>)
        ensures
            r == Some(HashKind::Sha1) <==> (s.spec_bytes() == "SHA1".spec_bytes() || s.spec_bytes()
                == "sha1".spec_bytes()),
            r is None <==> !(s.spec_bytes() == "SHA1".spec_bytes() || s.spec_bytes()
                == "sha1".spec_bytes()),
    {
        let b = s.as_bytes_vec();
        let upper = "SHA1".as_bytes_vec();
        let lower = "sha1".as_bytes_vec();
        if crate::bytes::bytes_eq(b.as_slice(), upper.as_slice()) || crate::bytes::bytes_eq(
            b.as_slice(),
            lower.as_slice(),
        ) {
            Some(HashKind::Sha1)
        } else {
            None
        }
    }
}

/// The output formats an argument can name.
#[derive(Clone, Copy, PartialEq, Eq, Structural, Debug)]
pub enum OutputFormat {
    Human,
    Json,
}

/// The output-format parser behind the format argument.
#[derive(Clone, Copy, PartialEq, Eq, Structural, Debug)]
pub struct AsOutputFormat;

impl AsOutputFormat {
    /// Parse an output-format name: `human` or `json`.
    pub fn parse(s: &str) -> (r: Option<OutputFormat>)
        ensures
            match r {
                Some(f) => match f {
                    OutputFormat::Human => s.spec_bytes() == "human".spec_bytes(),
                    OutputFormat::Json => s.spec_bytes() == "json".spec_bytes(),
                },
                None => s.spec_bytes() != "human".spec_bytes() && s.spec_bytes()
                    != "json".spec_bytes(),
            },
    {
        let b = s.as_bytes_vec();
        let human = "human".as_bytes_vec();
        let json = "json".as_bytes_vec();
        if crate::bytes::bytes_eq(b.as_slice(), human.as_slice()) {
            Some(OutputFormat::Human)
        } else if crate::bytes::bytes_eq(b.as_slice(), json.as_slice()) {
            Some(OutputFormat::Json)
        } else {
            None
        }
    }
}

} // verus!
