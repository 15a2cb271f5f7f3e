//! Fixed-point numbers with nine decimal places.
//!
//! Coordinates and elevations are decimal literals in the document text
//! (`"12.5"`, `"-3.25"`). The library holds them exactly, as a signed count
//! of billionths, and `parse_fixed` is the library's own decimal reader:
//! an optional sign, at least one integer digit, and an optional fraction
//! of at most nine digits.

use vstd::prelude::*;
use vstd::string::StrSliceExecFns;

verus! {

/// One fixed-point value: `nanos` billionths of a unit.
#[derive(Clone, Copy, Debug, PartialEq, Eq, Structural)]
pub struct Fixed {
    pub nanos: i64,
}

/// Billionths in one whole unit.
pub const UNIT: i64 = 1_000_000_000;

pub open spec fn is_digit(c: char) -> bool {
    48 <= c as u32 && c as u32 <= 57
}

pub open spec fn all_digits(s: Seq<char>) -> bool {
    forall|i: int| 0 <= i < s.len() ==> is_digit(#[trigger] s[i])
}

/// Value of a digit string read left to right.
pub open spec fn digits_val(s: Seq<char>) -> int
    decreases s.len(),
{
    if s.len() == 0 {
        0
    } else {
        digits_val(s.drop_last()) * 10 + (s.last() as u32 - 48)
    }
}

pub open spec fn pow10(n: nat) -> int
    decreases n,
{
    if n == 0 {
        1
    } else {
        10 * pow10((n - 1) as nat)
    }
}

/// Index of the first `'.'` at or after `i`, or `s.len()` if there is none.
pub open spec fn first_dot_from(s: Seq<char>, i: int) -> int
    decreases s.len() - i,
{
    if i >= s.len() {
        s.len() as int
    } else if s[i] == '.' {
        i
    } else {
        first_dot_from(s, i + 1)
    }
}

/// The unsigned part of the grammar: integer digits, an optional dot and
/// up to nine fraction digits, valued in billionths. `None` when the text
/// breaks the grammar or the value would not fit an `i64`.
pub open spec fn spec_parse_mag(s: Seq<char>) -> Option<int> {
    let d = first_dot_from(s, 0);
    let ip = s.subrange(0, d);
    let fp = if d == s.len() {
        Seq::<char>::empty()
    } else {
        s.subrange(d + 1, s.len() as int)
    };
    if ip.len() >= 1 && all_digits(ip) && fp.len() <= 9 && all_digits(fp) {
        let v = digits_val(ip) * (UNIT as int) + digits_val(fp) * pow10((9 - fp.len()) as nat);
        if v <= i64::MAX as int {
            Some(v)
        } else {
            None
        }
    } else {
        None
    }
}

/// The full grammar: an optional single leading sign before the magnitude.
pub open spec fn spec_parse_fixed(s: Seq<char>) -> Option<int> {
    if s.len() >= 1 && (s[0] == '+' || s[0] == '-') {
        match spec_parse_mag(s.drop_first()) {
            Some(v) => Some(if s[0] == '-' { -v } else { v }),
            None => None,
        }
    } else {
        spec_parse_mag(s)
    }
}

pub proof fn lemma_digits_val_nonneg(s: Seq<char>)
    requires
        all_digits(s),
    ensures
        digits_val(s) >= 0,
    decreases s.len(),
{
    if s.len() > 0 {
        assert(all_digits(s.drop_last()));
        lemma_digits_val_nonneg(s.drop_last());
        assert(is_digit(s.last()));
    }
}

pub proof fn lemma_pow10_pos(n: nat)
    ensures
        pow10(n) >= 1,
    decreases n,
{
    if n > 0 {
        lemma_pow10_pos((n - 1) as nat);
    }
}

/// Extending a digit string on the right never lowers its value.
pub proof fn lemma_digits_val_mono(s: Seq<char>, i: int)
    requires
        all_digits(s),
        0 <= i <= s.len(),
    ensures
        digits_val(s.subrange(0, i)) <= digits_val(s),
    decreases s.len() - i,
{
    if i == s.len() {
        assert(s.subrange(0, i) =~= s);
    } else {
        let t = s.subrange(0, i + 1);
        assert(t.drop_last() =~= s.subrange(0, i));
        assert(all_digits(t));
        assert(is_digit(t.last()));
        lemma_digits_val_nonneg(s.subrange(0, i));
        assert(digits_val(s.subrange(0, i)) <= digits_val(s.subrange(0, i)) * 10 + (
        t.last() as u32 - 48)) by (nonlinear_arith)
            requires digits_val(s.subrange(0, i)) >= 0, is_digit(t.last()),
        ;
        lemma_digits_val_mono(s, i + 1);
    }
}

pub proof fn lemma_pow10_mono(a: nat, b: nat)
    requires
        a <= b,
    ensures
        pow10(a) <= pow10(b),
    decreases b,
{
    if a < b {
        lemma_pow10_mono(a, (b - 1) as nat);
        lemma_pow10_pos((b - 1) as nat);
    }
}

pub proof fn lemma_pow10_nine()
    ensures
        pow10(9) == 1_000_000_000,
{
    reveal_with_fuel(pow10, 11);
}

/// The first dot lies between `i` and the end of the string.
pub proof fn lemma_first_dot_range(s: Seq<char>, i: int)
    requires
        0 <= i <= s.len(),
    ensures
        i <= first_dot_from(s, i) <= s.len(),
        first_dot_from(s, i) < s.len() ==> s[first_dot_from(s, i)] == '.',
        forall|k: int| i <= k < first_dot_from(s, i) ==> s[k] != '.',
    decreases s.len() - i,
{
    if i < s.len() && s[i] != '.' {
        lemma_first_dot_range(s, i + 1);
    }
}

pub proof fn lemma_digits_push(p: Seq<char>, c: char)
    ensures
        digits_val(p.push(c)) == digits_val(p) * 10 + (c as u32 - 48),
{
    assert(p.push(c).drop_last() =~= p);
    assert(p.push(c).last() == c);
}

/// How a leading sign, if any, relates the whole text to its magnitude part.
pub open spec fn sign_split(s: Seq<char>, off: int, neg: bool) -> bool {
    &&& off == 0 || off == 1
    &&& off <= s.len()
    &&& (off == 1 <==> s.len() >= 1 && (s[0] == '+' || s[0] == '-'))
    &&& (neg <==> off == 1 && s[0] == '-')
}

pub proof fn lemma_sign_split(s: Seq<char>, off: int, neg: bool)
    requires
        sign_split(s, off, neg),
    ensures
        spec_parse_fixed(s) == (match spec_parse_mag(s.subrange(off, s.len() as int)) {
            Some(v) => Some(if neg { -v } else { v }),
            None => None::<int>,
        }),
{
    if off == 1 {
        assert(s.subrange(1, s.len() as int) =~= s.drop_first());
    } else {
        assert(s.subrange(0, s.len() as int) =~= s);
    }
}

/// Reads the unsigned magnitude of the text after `off` into billionths.
#[verifier::loop_isolation(false)]
fn parse_mag(s: &str, off: usize) -> (r: Option<u64>)
    requires
        off <= s@.len(),
    ensures
        match r {
            Some(v) => spec_parse_mag(s@.subrange(off as int, s@.len() as int)) == Some(v as int)
                && v <= i64::MAX as u64,
            None => spec_parse_mag(s@.subrange(off as int, s@.len() as int)) is None,
        },
{
    let n = s.unicode_len();
    let ghost t: Seq<char> = s@.subrange(off as int, n as int);
    let mut j: usize = off;
    let mut ival: u64 = 0;
    let mut dotted = false;
    while j < n && !dotted
        invariant
            off <= j <= n,
            all_digits(t.subrange(0, j - off)),
            first_dot_from(t, 0) == first_dot_from(t, j - off),
            ival == digits_val(t.subrange(0, j - off)),
            ival <= 9_223_372_036,
            dotted ==> j < n && s@[j as int] == '.',
        decreases n - j, if dotted { 0int } else { 1int },
    {
        let c = s.get_char(j);
        if c == '.' {
            dotted = true;
        } else {
            let u: u32 = c as u32;
            let ghost jrel: int = j - off;
            if !(48 <= u && u <= 57) {
                proof {
                    lemma_first_dot_range(t, jrel + 1);
                    assert(first_dot_from(t, jrel) == first_dot_from(t, jrel + 1));
                    let dd = first_dot_from(t, 0);
                    assert(t.subrange(0, dd)[jrel] == t[jrel]);
                    assert(!is_digit(t[jrel]));
                }
                return None;
            }
            proof {
                assert(t.subrange(0, jrel + 1) =~= t.subrange(0, jrel).push(t[jrel]));
                lemma_digits_push(t.subrange(0, jrel), t[jrel]);
            }
            ival = ival * 10 + ((u - 48) as u64);
            j = j + 1;
            if ival > 9_223_372_036 {
                proof {
                    let dd = first_dot_from(t, 0);
                    lemma_first_dot_range(t, j - off);
                    if spec_parse_mag(t) is Some {
                        let ip = t.subrange(0, dd);
                        let fp = if dd == t.len() {
                            Seq::<char>::empty()
                        } else {
                            t.subrange(dd + 1, t.len() as int)
                        };
                        assert(all_digits(ip) && all_digits(fp));
                        assert(ip.subrange(0, j - off) =~= t.subrange(0, j - off));
                        lemma_digits_val_mono(ip, j - off);
                        lemma_digits_val_nonneg(fp);
                        lemma_pow10_pos((9 - fp.len()) as nat);
                        assert(digits_val(fp) * pow10((9 - fp.len()) as nat) >= 0)
                            by (nonlinear_arith)
                            requires digits_val(fp) >= 0, pow10((9 - fp.len()) as nat) >= 1,
                        ;
                        assert(digits_val(ip) * (UNIT as int) > i64::MAX as int);
                        assert(false);
                    }
                }
                return None;
            }
        }
    }
    if j == off {
        // no integer digit at all
        proof {
            assert(first_dot_from(t, 0) >= 0) by { lemma_first_dot_range(t, 0); }
            assert(t.subrange(0, first_dot_from(t, 0)).len() >= 1 ==> first_dot_from(t, 0) >= 1);
            if first_dot_from(t, 0) >= 1 {
                assert(t.subrange(0, j - off) =~= Seq::<char>::empty());
                assert(all_digits(t.subrange(0, 0)));
                if j == n {
                    assert(first_dot_from(t, 0) == t.len() && t.len() == 0);
                } else {
                    assert(t[0] == s@[j as int]);
                    assert(first_dot_from(t, 0) == 0);
                }
            }
        }
        return None;
    }
    let ghost dd: int = first_dot_from(t, 0);
    let mut fval: u64 = 0;
    let ghost fs: int = j + 1 - off;
    let mut flen: usize = 0;
    if j == n {
        proof {
            assert(first_dot_from(t, t.len() as int) == t.len());
            assert(dd == t.len());
        }
    } else {
        // a dot: read at most nine fraction digits
        proof {
            assert(t[j - off] == s@[j as int]);
            assert(first_dot_from(t, j - off) == j - off);
            assert(dd == j - off);
        }
        let fstart = j + 1;
        if n - fstart > 9 {
            proof {
                assert(t.subrange(dd + 1, t.len() as int).len() > 9);
            }
            return None;
        }
        flen = n - fstart;
        let mut k: usize = fstart;
        while k < n
            invariant
                fstart <= k <= n,
                all_digits(t.subrange(fs, k - off)),
                fval == digits_val(t.subrange(fs, k - off)),
                fval < pow10((k - fstart) as nat),
            decreases n - k,
        {
            let c = s.get_char(k);
            let u: u32 = c as u32;
            let ghost krel: int = k - off;
            if !(48 <= u && u <= 57) {
                proof {
                    assert(t.subrange(dd + 1, t.len() as int)[krel - fs] == t[krel]);
                    assert(!is_digit(t[krel]));
                }
                return None;
            }
            proof {
                assert(t.subrange(fs, krel + 1) =~= t.subrange(fs, krel).push(t[krel]));
                lemma_digits_push(t.subrange(fs, krel), t[krel]);
                lemma_pow10_mono((k - fstart + 1) as nat, 9);
                lemma_pow10_nine();
            }
            fval = fval * 10 + ((u - 48) as u64);
            k = k + 1;
        }
        proof {
            assert(t.subrange(fs, n - off) =~= t.subrange(dd + 1, t.len() as int));
        }
    }
    // scale the fraction to exactly nine places
    let ghost fp: Seq<char> = if dd == t.len() {
        Seq::<char>::empty()
    } else {
        t.subrange(dd + 1, t.len() as int)
    };
    proof {
        assert(fp.len() == flen);
        assert(fval == digits_val(fp) * pow10(0)) by {
            assert(pow10(0) == 1);
        }
        assert(fval < pow10(flen as nat)) by {
            if dd == t.len() {
                reveal_with_fuel(pow10, 2);
            }
        }
    }
    let mut z: usize = flen;
    while z < 9
        invariant
            flen <= z <= 9,
            fval == digits_val(fp) * pow10((z - flen) as nat),
            fval < pow10(z as nat),
        decreases 9 - z,
    {
        proof {
            lemma_pow10_mono(z as nat, 9);
            lemma_pow10_nine();
            assert(pow10((z + 1 - flen) as nat) == 10 * pow10((z - flen) as nat));
            assert((digits_val(fp) * pow10((z - flen) as nat)) * 10 == digits_val(fp) * (10
                * pow10((z - flen) as nat))) by (nonlinear_arith);
        }
        fval = fval * 10;
        z = z + 1;
    }
    proof {
        lemma_pow10_nine();
        assert(fval < 1_000_000_000);
    }
    let total: u64 = ival * 1_000_000_000u64 + fval;
    proof {
        let ip = t.subrange(0, dd);
        assert(ip =~= t.subrange(0, j - off));
        assert(fval == digits_val(fp) * pow10((9 - fp.len()) as nat));
        assert(spec_parse_mag(t) == (if digits_val(ip) * (UNIT as int) + digits_val(fp) * pow10(
            (9 - fp.len()) as nat) <= i64::MAX as int {
            Some(digits_val(ip) * (UNIT as int) + digits_val(fp) * pow10((9 - fp.len()) as nat))
        } else {
            None::<int>
        }));
    }
    if total > 9_223_372_036_854_775_807u64 {
        return None;
    }
    Some(total)
}

/// Reads a decimal literal (optional sign, integer digits, optional dot and
/// up to nine fraction digits) into billionths. The result is pinned to
/// `spec_parse_fixed` over the text's characters.
pub fn parse_fixed(s: &str) -> (r: Option<i64>)
    ensures
        match r {
            Some(v) => spec_parse_fixed(s@) == Some(v as int),
            None => spec_parse_fixed(s@) is None,
        },
{
    let n = s.unicode_len();
    let mut off: usize = 0;
    let mut neg = false;
    if n >= 1 {
        let c0 = s.get_char(0);
        if c0 == '+' || c0 == '-' {
            neg = c0 == '-';
            off = 1;
        }
    }
    proof {
        lemma_sign_split(s@, off as int, neg);
    }
    match parse_mag(s, off) {
        Some(v) => {
            let m = v as i64;
            if neg {
                Some(-m)
            } else {
                Some(m)
            }
        },
        None => None,
    }
}

} // verus!

