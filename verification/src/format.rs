//! Text formatting and parsing for the engine's values.
//!
//! The line equation is rendered as `"y = {slope:.3}x + {intercept:.3}"`
//! (minus sign pulled out of a negative intercept), with exact three-decimal
//! rounding, ties away from zero.  Export text renders each coordinate
//! exactly (`n` or `n/d`).  `PointCoordsStringy` carries the operator-typed
//! calibration fields; parsing accepts an optional sign followed by digits,
//! optionally continued by `.` and decimals or `/` and a denominator.

use vstd::prelude::*;
use vstd::string::{StringExecFns, StringSliceAdditionalSpecFns};
use crate::frac::Frac;
use crate::rational::{Rat, proper, req};
use crate::point_handling::PointCoords;

verus! {

/// The character for one decimal digit.
pub open spec fn dchar(d: nat) -> char {
    if d == 0 {
        '0'
    } else if d == 1 {
        '1'
    } else if d == 2 {
        '2'
    } else if d == 3 {
        '3'
    } else if d == 4 {
        '4'
    } else if d == 5 {
        '5'
    } else if d == 6 {
        '6'
    } else if d == 7 {
        '7'
    } else if d == 8 {
        '8'
    } else {
        '9'
    }
}

/// The decimal digits of `n`, most significant first.
pub open spec fn dec_digits(n: nat) -> Seq<char>
    decreases n,
{
    if n < 10 {
        seq![dchar(n)]
    } else {
        dec_digits(n / 10) + seq![dchar(n % 10)]
    }
}

/// The decimal rendering of a signed integer.
pub open spec fn dec_signed(n: int) -> Seq<char> {
    if n < 0 {
        seq!['-'] + dec_digits((-n) as nat)
    } else {
        dec_digits(n as nat)
    }
}

/// `v * 1000` rounded to the nearest integer, ties away from zero.
pub open spec fn round_scaled(v: Rat) -> int
    recommends
        v.d >= 1,
{
    if v.n >= 0 {
        (2000 * v.n + v.d) / (2 * v.d)
    } else {
        -((2000 * (-v.n) + v.d) / (2 * v.d))
    }
}

/// Fixed three-decimal rendering of the scaled magnitude `k >= 0`:
/// the digits of `k / 1000`, a point, and three digits of `k % 1000`.
pub open spec fn spec_fixed3(k: int) -> Seq<char>
    recommends
        k >= 0,
{
    dec_digits((k / 1000) as nat) + seq![
        '.',
        dchar(((k % 1000) / 100) as nat),
        dchar((((k % 1000) / 10) % 10) as nat),
        dchar((k % 10) as nat),
    ]
}

/// Three-decimal rendering of a fraction, with its sign.
pub open spec fn spec_frac3(f: Frac) -> Seq<char> {
    let k = round_scaled(f@);
    if k < 0 {
        seq!['-'] + spec_fixed3(-k)
    } else {
        spec_fixed3(k)
    }
}

/// The full equation line, as the engine reports it.
pub open spec fn spec_equation(slope: Frac, intercept: Frac) -> Seq<char> {
    let mag = if intercept@.n < 0 {
        -round_scaled(intercept@)
    } else {
        round_scaled(intercept@)
    };
    seq!['y', ' ', '=', ' '] + spec_frac3(slope) + seq!['x', ' '] + (if intercept@.n < 0 {
        seq!['-']
    } else {
        seq!['+']
    }) + seq![' '] + spec_fixed3(mag)
}

/// Exact text of a coordinate: `n` for integers, `n/d` otherwise.
pub open spec fn spec_frac_text(f: Frac) -> Seq<char> {
    if f@.d == 1 {
        dec_signed(f@.n)
    } else {
        dec_signed(f@.n) + seq!['/'] + dec_digits(f@.d as nat)
    }
}

/// One CSV line `"{x},{y}\n"` of raw coordinates.
pub open spec fn spec_point_csv(p: PointCoords) -> Seq<char> {
    spec_frac_text(p.x) + seq![','] + spec_frac_text(p.y) + seq!['\n']
}

/// The CSV text of a whole point list, one line per point.
pub open spec fn spec_csv(s: Seq<PointCoords>) -> Seq<char>
    decreases s.len(),
{
    if s.len() == 0 {
        Seq::empty()
    } else {
        spec_csv(s.drop_last()) + spec_point_csv(s.last())
    }
}

/// One decimal digit as a string slice.
fn digit_str(d: u128) -> (r: &'static str)
    requires
        d < 10,
    ensures
        r@ == seq![dchar(d as nat)],
{
    if d == 0 {
        proof {
            reveal_strlit("0");
        }
        "0"
    } else if d == 1 {
        proof {
            reveal_strlit("1");
        }
        "1"
    } else if d == 2 {
        proof {
            reveal_strlit("2");
        }
        "2"
    } else if d == 3 {
        proof {
            reveal_strlit("3");
        }
        "3"
    } else if d == 4 {
        proof {
            reveal_strlit("4");
        }
        "4"
    } else if d == 5 {
        proof {
            reveal_strlit("5");
        }
        "5"
    } else if d == 6 {
        proof {
            reveal_strlit("6");
        }
        "6"
    } else if d == 7 {
        proof {
            reveal_strlit("7");
        }
        "7"
    } else if d == 8 {
        proof {
            reveal_strlit("8");
        }
        "8"
    } else {
        proof {
            reveal_strlit("9");
        }
        "9"
    }
}

/// Append the decimal digits of `n`.
fn push_digits(s: &mut String, n: u128)
    ensures
        final(s)@ == old(s)@ + dec_digits(n as nat),
    decreases n,
{
    if n < 10 {
        s.append(digit_str(n));
    } else {
        push_digits(s, n / 10);
        s.append(digit_str(n % 10));
        proof {
            assert(old(s)@ + dec_digits((n / 10) as nat) + seq![dchar((n % 10) as nat)] == old(s)@
                + (dec_digits((n / 10) as nat) + seq![dchar((n % 10) as nat)]));
        }
    }
}

/// The scaled magnitude `|v| * 1000`, rounded, ties away from zero.
fn rounded_mag(f: &Frac) -> (q: u128)
    requires
        f.wf(),
    ensures
        q as int == (if f@.n >= 0 {
            round_scaled(f@)
        } else {
            -round_scaled(f@)
        }),
{
    proof {
        crate::frac::lemma_wf_proper(*f);
    }
    let num = f.numerator();
    let den = f.denominator();
    let mag: u128 = if num < 0 {
        (-(num as i128)) as u128
    } else {
        num as u128
    };
    let a: u128 = 2000 * mag + den as u128;
    let q: u128 = a / (2 * den as u128);
    q
}

/// Append the fixed three-decimal rendering of the scaled magnitude `k`.
fn push_fixed3(s: &mut String, k: u128)
    ensures
        final(s)@ == old(s)@ + spec_fixed3(k as int),
{
    push_digits(s, k / 1000);
    proof {
        reveal_strlit(".");
    }
    s.append(".");
    s.append(digit_str((k % 1000) / 100));
    s.append(digit_str(((k % 1000) / 10) % 10));
    s.append(digit_str(k % 10));
    proof {
        assert((k % 1000) % 10 == k % 10) by (nonlinear_arith)
            requires
                true,
        ;
        assert(final(s)@ =~= old(s)@ + spec_fixed3(k as int));
    }
}

/// Append the three-decimal rendering of `f`, with its sign.
fn push_frac3(s: &mut String, f: &Frac)
    requires
        f.wf(),
    ensures
        final(s)@ == old(s)@ + spec_frac3(*f),
{
    let q = rounded_mag(f);
    if f.numerator() < 0 && q > 0 {
        proof {
            reveal_strlit("-");
        }
        s.append("-");
    }
    push_fixed3(s, q);
    proof {
        assert(final(s)@ =~= old(s)@ + spec_frac3(*f));
    }
}

/// Render the fitted line as `"y = {slope:.3}x + {intercept:.3}"` (with the
/// minus sign pulled out of a negative intercept), exact three-decimal
/// rounding, ties away from zero.
pub fn pretty_line_equation(slope: &Frac, intercept: &Frac) -> (r: String)
    requires
        slope.wf(),
        intercept.wf(),
    ensures
        r@ == spec_equation(*slope, *intercept),
{
    let mut s = String::new();
    proof {
        reveal_strlit("y = ");
        reveal_strlit("x ");
        reveal_strlit("- ");
        reveal_strlit("+ ");
    }
    s.append("y = ");
    push_frac3(&mut s, slope);
    s.append("x ");
    if intercept.numerator() < 0 {
        s.append("- ");
    } else {
        s.append("+ ");
    }
    let q = rounded_mag(intercept);
    push_fixed3(&mut s, q);
    proof {
        assert(s@ =~= spec_equation(*slope, *intercept));
    }
    s
}

/// Append the exact text of a coordinate.
fn push_frac_text(s: &mut String, f: &Frac)
    requires
        f.wf(),
    ensures
        final(s)@ == old(s)@ + spec_frac_text(*f),
{
    proof {
        crate::frac::lemma_wf_proper(*f);
    }
    let num = f.numerator();
    let den = f.denominator();
    if num < 0 {
        proof {
            reveal_strlit("-");
        }
        s.append("-");
        push_digits(s, (-(num as i128)) as u128);
    } else {
        push_digits(s, num as u128);
    }
    if den != 1 {
        proof {
            reveal_strlit("/");
        }
        s.append("/");
        push_digits(s, den as u128);
    }
    proof {
        assert(final(s)@ =~= old(s)@ + spec_frac_text(*f));
    }
}

/// The exact text of a coordinate: `n` for integers, `n/d` otherwise.
pub fn frac_to_text(f: &Frac) -> (r: String)
    requires
        f.wf(),
    ensures
        r@ == spec_frac_text(*f),
{
    let mut s = String::new();
    push_frac_text(&mut s, f);
    proof {
        assert(s@ =~= spec_frac_text(*f));
    }
    s
}

/// The export text of a point list: one `"{x},{y}\n"` line per point, raw
/// (untransformed) coordinates.
pub fn export_csv(points: &Vec<PointCoords>) -> (r: String)
    requires
        forall|i: int| 0 <= i < points@.len() ==> (#[trigger] points@[i]).wf(),
    ensures
        r@ == spec_csv(points@),
{
    let mut s = String::new();
    let mut i: usize = 0;
    proof {
        assert(points@.take(0) =~= Seq::<PointCoords>::empty());
    }
    while i < points.len()
        invariant
            0 <= i <= points@.len(),
            forall|j: int| 0 <= j < points@.len() ==> (#[trigger] points@[j]).wf(),
            s@ == spec_csv(points@.take(i as int)),
        decreases points@.len() - i,
    {
        let p = points[i];
        push_frac_text(&mut s, &p.x);
        proof {
            reveal_strlit(",");
            reveal_strlit("\n");
        }
        s.append(",");
        push_frac_text(&mut s, &p.y);
        s.append("\n");
        proof {
            assert(points@.take(i as int + 1).drop_last() =~= points@.take(i as int));
            assert(points@.take(i as int + 1).last() == p);
            assert(s@ =~= spec_csv(points@.take(i as int + 1)));
        }
        i = i + 1;
    }
    proof {
        assert(points@.take(points@.len() as int) =~= points@);
    }
    s
}

/// The logical export file name of the line at `index`:
/// `"line_{index}.csv"`.
pub fn export_filename(index: usize) -> (r: String)
    ensures
        r@ == seq!['l', 'i', 'n', 'e', '_'] + dec_digits(index as nat) + seq!['.', 'c', 's', 'v'],
{
    let mut s = String::new();
    proof {
        reveal_strlit("line_");
        reveal_strlit(".csv");
    }
    s.append("line_");
    push_digits(&mut s, index as u128);
    s.append(".csv");
    proof {
        assert(s@ =~= seq!['l', 'i', 'n', 'e', '_'] + dec_digits(index as nat) + seq![
            '.',
            'c',
            's',
            'v',
        ]);
    }
    s
}

/// An ASCII decimal digit.
pub open spec fn is_digit(b: u8) -> bool {
    48 <= b <= 57
}

/// Every byte in `[from, to)` is a digit.
pub open spec fn all_digits(bs: Seq<u8>, from: int, to: int) -> bool {
    forall|i: int| from <= i < to ==> is_digit(#[trigger] bs[i])
}

/// The value of a digit run, most significant first.
pub open spec fn digits_val(bs: Seq<u8>) -> int
    decreases bs.len(),
{
    if bs.len() == 0 {
        0
    } else {
        digits_val(bs.drop_last()) * 10 + (bs.last() - 48)
    }
}

pub open spec fn pow10(k: nat) -> int
    decreases k,
{
    if k == 0 {
        1
    } else {
        10 * pow10((k - 1) as nat)
    }
}

/// The end of the digit run beginning at `k`: the first position at or
/// after `k` that is past the end or not a digit.
pub open spec fn digit_run_end(bs: Seq<u8>, k: int) -> int
    recommends
        0 <= k <= bs.len(),
    decreases bs.len() - k,
{
    if k < bs.len() && is_digit(bs[k]) {
        digit_run_end(bs, k + 1)
    } else {
        k
    }
}

/// The rational value of a numeric text: an optional `-`, then digits,
/// optionally continued by `.` and decimals or by `/` and a nonzero
/// denominator.  `None` for anything else.
pub open spec fn spec_parse(bs: Seq<u8>) -> Option<Rat> {
    let neg = bs.len() > 0 && bs[0] == 45;
    let start: int = if neg {
        1
    } else {
        0
    };
    let e1 = digit_run_end(bs, start);
    if e1 == start {
        None
    } else if e1 == bs.len() {
        let v = digits_val(bs.subrange(start, e1));
        Some(Rat { n: if neg { -v } else { v }, d: 1 })
    } else if (bs[e1] == 46 || bs[e1] == 47) && e1 + 1 < bs.len() && digit_run_end(bs, e1 + 1)
        == bs.len() {
        let ip = digits_val(bs.subrange(start, e1));
        let fp = digits_val(bs.subrange(e1 + 1, bs.len() as int));
        if bs[e1] == 46 {
            let den = pow10((bs.len() - e1 - 1) as nat);
            Some(Rat { n: if neg { -(ip * den + fp) } else { ip * den + fp }, d: den })
        } else if fp == 0 {
            None
        } else {
            Some(Rat { n: if neg { -ip } else { ip }, d: fp })
        }
    } else {
        None
    }
}

/// A maximal digit run pins `digit_run_end` exactly.
proof fn lemma_digit_run_end(bs: Seq<u8>, k: int, e: int)
    requires
        0 <= k <= e <= bs.len(),
        all_digits(bs, k, e),
        e == bs.len() || !is_digit(bs[e]),
    ensures
        digit_run_end(bs, k) == e,
    decreases e - k,
{
    if k == e {
    } else {
        assert(is_digit(bs[k]));
        lemma_digit_run_end(bs, k + 1, e);
    }
}


/// A digit run's value is nonnegative and below `10^len`.
proof fn lemma_digits_val_bound(bs: Seq<u8>)
    requires
        all_digits(bs, 0, bs.len() as int),
    ensures
        0 <= digits_val(bs) < pow10(bs.len()),
    decreases bs.len(),
{
    if bs.len() == 0 {
    } else {
        let front = bs.drop_last();
        assert(all_digits(front, 0, front.len() as int)) by {
            assert(forall|i: int| 0 <= i < front.len() ==> front[i] == bs[i]);
        }
        lemma_digits_val_bound(front);
        assert(digits_val(front) * 10 + (bs.last() - 48) < pow10(bs.len())) by (nonlinear_arith)
            requires
                0 <= digits_val(front) < pow10((bs.len() - 1) as nat),
                pow10(bs.len()) == 10 * pow10((bs.len() - 1) as nat),
                48 <= bs.last() <= 57,
        ;
    }
}

/// `pow10` grows with its argument and is at least 1.
proof fn lemma_pow10_bounds(k: nat, cap: nat)
    requires
        k <= cap,
    ensures
        1 <= pow10(k) <= pow10(cap),
    decreases cap,
{
    if cap == 0 {
    } else if k == cap {
        lemma_pow10_bounds((cap - 1) as nat, (cap - 1) as nat);
    } else {
        lemma_pow10_bounds(k, (cap - 1) as nat);
    }
}

/// `pow10(16)` evaluated.
proof fn lemma_pow10_16()
    ensures
        pow10(16) == 10000000000000000,
{
    reveal_with_fuel(pow10, 17);
}

/// Parse a numeric text into an exact coordinate value.
///
/// Accepts an optional `-`, then digits, optionally continued by `.` and
/// decimals or by `/` and a nonzero denominator.  Returns `None` exactly on
/// text outside that grammar, on a zero denominator, or when the exact value
/// leaves the machine range; every grammatical text of at most 16 bytes
/// parses successfully.
pub fn parse_frac(text: &str) -> (r: Option<Frac>)
    ensures
        r matches Some(f) ==> {
            &&& f.wf()
            &&& spec_parse(text.spec_bytes()) matches Some(v) && proper(v) && req(f@, v)
        },
        spec_parse(text.spec_bytes()) is None ==> r is None,
        text.spec_bytes().len() <= 16 && spec_parse(text.spec_bytes()) is Some ==> r is Some,
{
    let bs = text.as_bytes();
    let ghost gbs = text.spec_bytes();
    let n = bs.len();
    let mut i: usize = 0;
    let mut neg = false;
    if n > 0 && bs[0] == 45 {
        neg = true;
        i = 1;
    }
    let start = i;
    let ghost gstart = start as int;
    let mut acc: u64 = 0;
    proof {
        assert(gbs.subrange(gstart, gstart) =~= Seq::<u8>::empty());
    }
    while i < n && 48 <= bs[i] && bs[i] <= 57
        invariant
            n == gbs.len(),
            bs@ == gbs,
            gbs == text.spec_bytes(),
            gstart == (if gbs.len() > 0 && gbs[0] == 45 {
                1int
            } else {
                0int
            }),
            neg == (gbs.len() > 0 && gbs[0] == 45),
            gstart <= i as int <= n,
            start == gstart,
            i >= start,
            all_digits(gbs, gstart, i as int),
            acc as int == digits_val(gbs.subrange(gstart, i as int)),
            acc <= 0x1900_0000_0000_0000,
        decreases n - i,
    {
        if acc >= 0x0280_0000_0000_0000 {
            // a longer run cannot come from a short text
            proof {
                if gbs.len() <= 16 {
                    lemma_digits_val_sub_bound(gbs, gstart, i as int);
                    lemma_pow10_bounds((i as int - gstart) as nat, 16);
                    lemma_pow10_16();
                }
            }
            return None;
        }
        let d = bs[i] - 48;
        acc = acc * 10 + d as u64;
        proof {
            assert(gbs.subrange(gstart, i as int + 1).drop_last() =~= gbs.subrange(
                gstart,
                i as int,
            ));
        }
        i = i + 1;
    }
    if i == start {
        // no digits at all
        proof {
            lemma_digit_run_end(gbs, gstart, i as int);
        }
        return None;
    }
    if i == n {
        // plain integer
        let num: i64 = if neg {
            -(acc as i64)
        } else {
            acc as i64
        };
        let r = Frac::new(num, 1);
        proof {
            lemma_digit_run_end(gbs, gstart, i as int);
            assert(gbs.subrange(gstart, n as int) =~= gbs.subrange(gstart, i as int));
        }
        return r;
    }
    let sep = bs[i];
    if sep != 46 && sep != 47 {
        proof {
            lemma_digit_run_end(gbs, gstart, i as int);
        }
        return None;
    }
    let sep_ix = i;
    proof {
        assert(acc as int == digits_val(gbs.subrange(gstart, sep_ix as int)));
        assert(all_digits(gbs, gstart, sep_ix as int));
        assert(!is_digit(gbs[sep_ix as int]));
        lemma_digit_run_end(gbs, gstart, sep_ix as int);
    }
    i = i + 1;
    let frac_start = i;
    let mut acc2: u64 = 0;
    proof {
        assert(gbs.subrange(frac_start as int, frac_start as int) =~= Seq::<u8>::empty());
    }
    while i < n && 48 <= bs[i] && bs[i] <= 57
        invariant
            n == gbs.len(),
            bs@ == gbs,
            gbs == text.spec_bytes(),
            gstart == (if gbs.len() > 0 && gbs[0] == 45 {
                1int
            } else {
                0int
            }),
            neg == (gbs.len() > 0 && gbs[0] == 45),
            frac_start as int <= i as int <= n,
            gstart < sep_ix as int,
            sep_ix + 1 == frac_start,
            all_digits(gbs, frac_start as int, i as int),
            acc2 as int == digits_val(gbs.subrange(frac_start as int, i as int)),
            acc2 <= 0x1900_0000_0000_0000,
        decreases n - i,
    {
        if acc2 >= 0x0280_0000_0000_0000 {
            proof {
                if gbs.len() <= 16 {
                    lemma_digits_val_sub_bound(gbs, frac_start as int, i as int);
                    lemma_pow10_bounds((i as int - frac_start as int) as nat, 16);
                    lemma_pow10_16();
                }
            }
            return None;
        }
        let d = bs[i] - 48;
        acc2 = acc2 * 10 + d as u64;
        proof {
            assert(gbs.subrange(frac_start as int, i as int + 1).drop_last() =~= gbs.subrange(
                frac_start as int,
                i as int,
            ));
        }
        i = i + 1;
    }
    proof {
        lemma_digit_run_end(gbs, frac_start as int, i as int);
    }
    if i < n {
        // trailing non-digit text
        return None;
    }
    if frac_start == i {
        // separator with nothing after it
        return None;
    }
    proof {
        assert(gbs.subrange(frac_start as int, n as int) =~= gbs.subrange(
            frac_start as int,
            i as int,
        ));
    }
    if sep == 46 {
        // decimal point: denominator is 10^(number of decimals)
        let k = i - frac_start;
        let mut den: u64 = 1;
        let mut step: usize = 0;
        while step < k
            invariant
                0 <= step <= k,
                k == i - frac_start,
                frac_start >= 1,
                i <= n,
                n == gbs.len(),
                gbs == text.spec_bytes(),
                gstart == (if gbs.len() > 0 && gbs[0] == 45 {
                    1int
                } else {
                    0int
                }),
                neg == (gbs.len() > 0 && gbs[0] == 45),
                den as int == pow10(step as nat),
                den <= 0x1900_0000_0000_0000,
            decreases k - step,
        {
            if den >= 0x0280_0000_0000_0000 {
                proof {
                    if gbs.len() <= 16 {
                        lemma_pow10_bounds(step as nat, 16);
                        lemma_pow10_16();
                    }
                }
                return None;
            }
            den = den * 10;
            step = step + 1;
        }
        proof {
            assert((acc as int) * (den as int)
                <= 0x2000_0000_0000_0000_0000_0000_0000_0000int) by (nonlinear_arith)
                requires
                    0 <= acc as int <= 0x1900_0000_0000_0000,
                    0 <= den as int <= 0x1900_0000_0000_0000,
            ;
        }
        let wide: u128 = acc as u128 * den as u128 + acc2 as u128;
        if wide > 0x7fff_ffff_ffff_ffffu128 {
            proof {
                if gbs.len() <= 16 {
                    lemma_short_decimal_fits(gbs, gstart, sep_ix as int);
                }
            }
            return None;
        }
        let num: i64 = if neg {
            -(wide as i64)
        } else {
            wide as i64
        };
        proof {
            assert(gbs[sep_ix as int] == 46);
            assert(acc as int == digits_val(gbs.subrange(gstart, sep_ix as int)));
            assert(acc2 as int == digits_val(gbs.subrange(sep_ix as int + 1, n as int)));
            assert(den as int == pow10((n - sep_ix - 1) as nat));
            assert(wide as int == acc as int * den as int + acc2 as int);
            assert(spec_parse(gbs) is Some);
        }
        let r = Frac::new(num, den as i64);
        proof {
            if gbs.len() <= 16 {
                lemma_pow10_bounds(k as nat, 16);
                lemma_pow10_16();
            }
        }
        r
    } else {
        // slash: explicit denominator
        if acc2 == 0 {
            return None;
        }
        let num: i64 = if neg {
            -(acc as i64)
        } else {
            acc as i64
        };
        proof {
            assert(gbs[sep_ix as int] == 47);
            assert(acc as int == digits_val(gbs.subrange(gstart, sep_ix as int)));
            assert(acc2 as int == digits_val(gbs.subrange(sep_ix as int + 1, n as int)));
            assert(spec_parse(gbs) is Some);
        }
        Frac::new(num, acc2 as i64)
    }
}

/// The value of an inner digit run is below `10^(its length)`.
proof fn lemma_digits_val_sub_bound(bs: Seq<u8>, from: int, to: int)
    requires
        0 <= from <= to <= bs.len(),
        all_digits(bs, from, to),
    ensures
        0 <= digits_val(bs.subrange(from, to)) < pow10((to - from) as nat),
{
    let sub = bs.subrange(from, to);
    assert(all_digits(sub, 0, sub.len() as int)) by {
        assert(forall|i: int| 0 <= i < sub.len() ==> sub[i] == bs[from + i]);
    }
    lemma_digits_val_bound(sub);
}





/// For a decimal text of at most 16 bytes the combined numerator fits well
/// inside `i64`.
proof fn lemma_short_decimal_fits(bs: Seq<u8>, start: int, sep: int)
    requires
        bs.len() <= 16,
        0 <= start < sep,
        sep + 1 < bs.len(),
        all_digits(bs, start, sep),
        all_digits(bs, sep + 1, bs.len() as int),
    ensures
        digits_val(bs.subrange(start, sep)) * pow10((bs.len() - sep - 1) as nat) + digits_val(
            bs.subrange(sep + 1, bs.len() as int),
        ) <= 0x7fff_ffff_ffff_ffff,
{
    let ipd = (sep - start) as nat;
    let fpd = (bs.len() - sep - 1) as nat;
    lemma_digits_val_sub_bound(bs, start, sep);
    lemma_digits_val_sub_bound(bs, sep + 1, bs.len() as int);
    lemma_pow10_mul(ipd, fpd);
    lemma_pow10_bounds((ipd + fpd) as nat, 16);
    lemma_pow10_16();
    assert(digits_val(bs.subrange(start, sep)) * pow10(fpd) + digits_val(
        bs.subrange(sep + 1, bs.len() as int),
    ) < pow10((ipd + fpd) as nat)) by (nonlinear_arith)
        requires
            0 <= digits_val(bs.subrange(start, sep)) < pow10(ipd),
            0 <= digits_val(bs.subrange(sep + 1, bs.len() as int)) < pow10(fpd),
            pow10((ipd + fpd) as nat) == pow10(ipd) * pow10(fpd),
            pow10(fpd) >= 1,
    ;
}

/// `pow10` turns addition into multiplication.
proof fn lemma_pow10_mul(a: nat, b: nat)
    ensures
        pow10(a + b) == pow10(a) * pow10(b),
    decreases a,
{
    if a == 0 {
        assert(pow10(b) == 1 * pow10(b)) by (nonlinear_arith);
    } else {
        lemma_pow10_mul((a - 1) as nat, b);
        assert((a - 1) + b == (a + b) - 1);
        assert(10 * (pow10((a - 1) as nat) * pow10(b)) == (10 * pow10((a - 1) as nat)) * pow10(b))
            by (nonlinear_arith);
    }
}

/// The single byte of an ASCII character.
pub open spec fn ascii_byte(c: char) -> u8 {
    (c as u32) as u8
}

/// The bytes of an ASCII character sequence, one byte per character.
pub open spec fn ascii_bytes(s: Seq<char>) -> Seq<u8> {
    Seq::new(s.len(), |i: int| ascii_byte(s[i]))
}

/// Every character of the sequence is ASCII.
pub open spec fn ascii_chars(s: Seq<char>) -> bool {
    forall|i: int| 0 <= i < s.len() ==> ((#[trigger] s[i]) as u32) < 128
}

/// The UTF-8 encoding of an ASCII sequence is the bytewise code map.
proof fn lemma_encode_ascii(s: Seq<char>)
    requires
        ascii_chars(s),
    ensures
        vstd::utf8::encode_utf8(s) =~= ascii_bytes(s),
    decreases s.len(),
{
    if s.len() == 0 {
    } else {
        let c0: u32 = s[0] as u32;
        assert((c0 & 0x7F) as u8 == c0 as u8) by (bit_vector)
            requires
                c0 < 128,
        ;
        assert(vstd::utf8::encode_scalar(c0) =~= seq![ascii_byte(s[0])]);
        assert(ascii_chars(s.drop_first())) by {
            assert(forall|i: int|
                0 <= i < s.drop_first().len() ==> s.drop_first()[i] == s[i + 1]);
        }
        lemma_encode_ascii(s.drop_first());
        assert(vstd::utf8::encode_utf8(s) =~= seq![ascii_byte(s[0])] + ascii_bytes(
            s.drop_first(),
        ));
    }
}

/// The code points of the characters the renderer emits.
proof fn lemma_char_codes()
    ensures
        '-' as u32 == 45,
        '.' as u32 == 46,
        '/' as u32 == 47,
        forall|d: nat| d < 10 ==> ((#[trigger] dchar(d)) as u32) == 48 + d,
{
    assert forall|d: nat| d < 10 implies ((#[trigger] dchar(d)) as u32) == 48 + d by {
        if d == 0 {
            assert('0' as u32 == 48);
        } else if d == 1 {
            assert('1' as u32 == 49);
        } else if d == 2 {
            assert('2' as u32 == 50);
        } else if d == 3 {
            assert('3' as u32 == 51);
        } else if d == 4 {
            assert('4' as u32 == 52);
        } else if d == 5 {
            assert('5' as u32 == 53);
        } else if d == 6 {
            assert('6' as u32 == 54);
        } else if d == 7 {
            assert('7' as u32 == 55);
        } else if d == 8 {
            assert('8' as u32 == 56);
        } else {
            assert('9' as u32 == 57);
        }
    }
}

/// The rendered digits of `m` are ASCII digit bytes carrying the value `m`.
proof fn lemma_dec_digits_bytes(m: nat)
    ensures
        ascii_chars(dec_digits(m)),
        dec_digits(m).len() >= 1,
        all_digits(ascii_bytes(dec_digits(m)), 0, dec_digits(m).len() as int),
        digits_val(ascii_bytes(dec_digits(m))) == m,
    decreases m,
{
    lemma_char_codes();
    if m < 10 {
        assert(dec_digits(m)[0] == dchar(m));
        assert(ascii_bytes(dec_digits(m)) =~= seq![(48 + m) as u8]);
        assert(ascii_bytes(dec_digits(m)).drop_last() =~= Seq::<u8>::empty());
        assert(is_digit(ascii_bytes(dec_digits(m))[0]));
        assert(ascii_bytes(dec_digits(m)).last() == (48 + m) as u8);
        assert(digits_val(Seq::<u8>::empty()) == 0);
        assert(digits_val(ascii_bytes(dec_digits(m))) == digits_val(
            ascii_bytes(dec_digits(m)).drop_last(),
        ) * 10 + (ascii_bytes(dec_digits(m)).last() - 48));
    } else {
        lemma_dec_digits_bytes(m / 10);
        let front = dec_digits(m / 10);
        let whole = dec_digits(m);
        assert(whole == front + seq![dchar(m % 10)]);
        assert(ascii_chars(whole)) by {
            assert(forall|i: int| 0 <= i < front.len() ==> whole[i] == front[i]);
            assert(whole[front.len() as int] == dchar(m % 10));
        }
        assert(ascii_bytes(whole) =~= ascii_bytes(front) + seq![(48 + m % 10) as u8]);
        assert(ascii_bytes(whole).drop_last() =~= ascii_bytes(front));
        assert(ascii_bytes(whole).last() == (48 + m % 10) as u8);
        assert(all_digits(ascii_bytes(whole), 0, whole.len() as int)) by {
            assert(forall|i: int|
                0 <= i < front.len() ==> ascii_bytes(whole)[i] == ascii_bytes(front)[i]);
            assert(is_digit(ascii_bytes(whole)[whole.len() - 1]));
        }
        assert(digits_val(ascii_bytes(whole)) == digits_val(ascii_bytes(front)) * 10 + ((48 + m
            % 10) - 48));
        vstd::arithmetic::div_mod::lemma_fundamental_div_mod(m as int, 10);
        assert(digits_val(ascii_bytes(whole)) == (m / 10) * 10 + m % 10);
    }
}

/// Rendering a canonical coordinate and parsing the text back yields exactly
/// the coordinate's rational view: `frac_to_text` and `parse_frac` are
/// inverse on every well-formed value.
#[verifier::rlimit(50)]
pub proof fn lemma_text_parse_round_trip(f: Frac)
    requires
        f.wf(),
    ensures
        spec_parse(vstd::utf8::encode_utf8(spec_frac_text(f))) == Some(f@),
{
    crate::frac::lemma_wf_proper(f);
    lemma_char_codes();
    let n = f@.n;
    let d = f@.d;
    let mag: nat = (if n < 0 { -n } else { n }) as nat;
    let ip = dec_digits(mag);
    lemma_dec_digits_bytes(mag);
    let text = spec_frac_text(f);
    let sign: Seq<char> = if n < 0 { seq!['-'] } else { Seq::empty() };
    let start: int = sign.len() as int;
    if d == 1 {
        assert(text =~= sign + ip);
        assert(ascii_chars(text));
        lemma_encode_ascii(text);
        let bs = ascii_bytes(text);
        assert(bs =~= ascii_bytes(sign) + ascii_bytes(ip));
        assert(n < 0 ==> bs[0] == 45);
        assert(n >= 0 ==> is_digit(bs[0]));
        assert(all_digits(bs, start, bs.len() as int)) by {
            assert(forall|i: int|
                start <= i < bs.len() ==> bs[i] == ascii_bytes(ip)[i - start]);
        }
        lemma_digit_run_end(bs, start, bs.len() as int);
        assert(bs.subrange(start, bs.len() as int) =~= ascii_bytes(ip));
        assert(f@ == Rat { n: n, d: 1int });
    } else {
        let dd = dec_digits(d as nat);
        lemma_dec_digits_bytes(d as nat);
        assert(text =~= sign + ip + seq!['/'] + dd);
        assert(ascii_chars(text));
        lemma_encode_ascii(text);
        let bs = ascii_bytes(text);
        assert(bs =~= ascii_bytes(sign) + ascii_bytes(ip) + seq![47u8] + ascii_bytes(dd));
        let sep = start + ip.len() as int;
        assert(n < 0 ==> bs[0] == 45);
        assert(n >= 0 ==> is_digit(bs[0]));
        assert(bs[sep] == 47);
        assert(all_digits(bs, start, sep)) by {
            assert(forall|i: int| start <= i < sep ==> bs[i] == ascii_bytes(ip)[i - start]);
        }
        assert(all_digits(bs, sep + 1, bs.len() as int)) by {
            assert(forall|i: int|
                sep + 1 <= i < bs.len() ==> bs[i] == ascii_bytes(dd)[i - sep - 1]);
        }
        lemma_digit_run_end(bs, start, sep);
        lemma_digit_run_end(bs, sep + 1, bs.len() as int);
        assert(bs.subrange(start, sep) =~= ascii_bytes(ip));
        assert(bs.subrange(sep + 1, bs.len() as int) =~= ascii_bytes(dd));
        assert(f@ == Rat { n: n, d: d });
    }
}

/// Any well-formed coordinate that carries the parsed value of a rendered
/// text is the rendered value itself: printing then parsing is the identity
/// on canonical coordinates.
pub proof fn lemma_text_parse_unique(f: Frac, g: Frac)
    requires
        f.wf(),
        g.wf(),
        ({
            &&& spec_parse(vstd::utf8::encode_utf8(spec_frac_text(f))) matches Some(v)
            &&& req(g@, v)
        }),
    ensures
        g == f,
{
    lemma_text_parse_round_trip(f);
    crate::frac::lemma_frac_canonical(g, f);
}

/// The text form of the two real-world coordinates the operator types for a
/// calibration point.
#[derive(Clone, Debug)]
pub struct PointCoordsStringy {
    pub x: String,
    pub y: String,
}

impl PointCoordsStringy {
    /// Build the text fields from exact coordinate values.
    pub fn new_numeric(x: &Frac, y: &Frac) -> (r: PointCoordsStringy)
        requires
            x.wf(),
            y.wf(),
        ensures
            r.x@ == spec_frac_text(*x),
            r.y@ == spec_frac_text(*y),
    {
        PointCoordsStringy { x: frac_to_text(x), y: frac_to_text(y) }
    }

    /// Parse both fields; `None` as soon as one is not numeric.
    pub fn try_as_numeric(&self) -> (r: Option<PointCoords>)
        ensures
            r matches Some(p) ==> {
                &&& p.wf()
                &&& spec_parse(vstd::utf8::encode_utf8(self.x@)) matches Some(vx) && req(
                    p.x@,
                    vx,
                )
                &&& spec_parse(vstd::utf8::encode_utf8(self.y@)) matches Some(vy) && req(
                    p.y@,
                    vy,
                )
            },
            spec_parse(vstd::utf8::encode_utf8(self.x@)) is None || spec_parse(
                vstd::utf8::encode_utf8(self.y@),
            ) is None ==> r is None,
            vstd::utf8::encode_utf8(self.x@).len() <= 16 && spec_parse(
                vstd::utf8::encode_utf8(self.x@),
            ) is Some && vstd::utf8::encode_utf8(self.y@).len() <= 16 && spec_parse(
                vstd::utf8::encode_utf8(self.y@),
            ) is Some ==> r is Some,
    {
        let x = match parse_frac(self.x.as_str()) {
            Some(v) => v,
            None => {
                return None;
            },
        };
        let y = match parse_frac(self.y.as_str()) {
            Some(v) => v,
            None => {
                return None;
            },
        };
        Some(PointCoords { x, y })
    }
}

} // verus!
