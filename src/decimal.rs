//! Decimal numbers as a float parser reads them, spelled canonically.
//!
//! A number is read from an optional sign, digits with an optional `.` and
//! more digits (at least one digit in all), and an optional exponent: `e` or
//! `E`, an optional sign, and digits. Its canonical spelling has no exponent,
//! no leading zeros in the whole part (`0` when it is empty), no trailing
//! zeros in the fraction, a `.` only before a non-empty fraction, and a `-`
//! only before a number other than zero. Two numbers are equal exactly when
//! their canonical spellings are.
//!
//! `inf`, `infinity` and `nan` have no decimal spelling and are not read. Nor
//! is an exponent above 1000 in size, which lies past every finite non-zero
//! single-precision float.

use vstd::prelude::*;
use crate::text::{
    all_digits, digit_end, digit_run, digits_value, is_digit, lemma_prefix_value_le, push_digits,
    same_text, without_plus,
};

verus! {

/// The largest exponent size that is read.
pub const MAX_EXPONENT: usize = 1000;

/// The parts of a decimal literal.
pub struct DecimalText {
    pub negative: bool,
    pub whole: Seq<char>,
    pub fraction: Seq<char>,
    pub exponent: int,
}

/// Whether `t` starts with `-`, and `t` without its sign.
pub open spec fn sign_of(t: Seq<char>) -> (bool, Seq<char>) {
    if t.len() > 0 && t[0] == '-' {
        (true, t.drop_first())
    } else {
        (false, without_plus(t))
    }
}

/// The parts of the decimal literal `t`, if it is one.
pub open spec fn decimal_parts(t: Seq<char>) -> Option<DecimalText> {
    let (negative, u) = sign_of(t);
    let k = digit_run(u) as int;
    let r1 = u.skip(k);
    let has_point = r1.len() > 0 && r1[0] == '.';
    let r2 = if has_point {
        r1.drop_first()
    } else {
        r1
    };
    let m = if has_point {
        digit_run(r2) as int
    } else {
        0
    };
    let r3 = r2.skip(m);
    let parts = DecimalText { negative, whole: u.take(k), fraction: r2.take(m), exponent: 0 };
    if k + m == 0 {
        None
    } else if r3.len() == 0 {
        Some(parts)
    } else if r3[0] == 'e' || r3[0] == 'E' {
        let (eneg, ed) = sign_of(r3.drop_first());
        if ed.len() > 0 && all_digits(ed) {
            Some(
                DecimalText {
                    exponent: if eneg {
                        -digits_value(ed)
                    } else {
                        digits_value(ed) as int
                    },
                    ..parts
                },
            )
        } else {
            None
        }
    } else {
        None
    }
}

pub open spec fn zeros(n: nat) -> Seq<char> {
    Seq::new(n, |i: int| '0')
}

/// The digits `d` with the decimal point after `p` of them, as whole and
/// fraction digits.
pub open spec fn at_point(d: Seq<char>, p: int) -> (Seq<char>, Seq<char>) {
    if p <= 0 {
        (Seq::empty(), zeros((-p) as nat) + d)
    } else if p >= d.len() {
        (d + zeros((p - d.len()) as nat), Seq::empty())
    } else {
        (d.take(p), d.skip(p))
    }
}

pub open spec fn strip_leading_zeros(s: Seq<char>) -> Seq<char>
    decreases s.len(),
{
    if s.len() > 0 && s[0] == '0' {
        strip_leading_zeros(s.drop_first())
    } else {
        s
    }
}

pub open spec fn strip_trailing_zeros(s: Seq<char>) -> Seq<char>
    decreases s.len(),
{
    if s.len() > 0 && s.last() == '0' {
        strip_trailing_zeros(s.drop_last())
    } else {
        s
    }
}

/// The canonical spelling of the number `whole.fraction`.
pub open spec fn canonical_decimal(whole: Seq<char>, fraction: Seq<char>) -> Seq<char> {
    let w = strip_leading_zeros(whole);
    let f = strip_trailing_zeros(fraction);
    (if w.len() == 0 {
        seq!['0']
    } else {
        w
    }) + (if f.len() == 0 {
        Seq::empty()
    } else {
        seq!['.'] + f
    })
}

/// The canonical spelling of the number that `x` denotes.
pub open spec fn spell(x: DecimalText) -> Seq<char> {
    let (w, f) = at_point(x.whole + x.fraction, x.whole.len() + x.exponent);
    let c = canonical_decimal(w, f);
    if x.negative && c != seq!['0'] {
        seq!['-'] + c
    } else {
        c
    }
}

/// The canonical spelling of the number that `t` denotes, if it is read.
pub open spec fn alpha_of(t: Seq<char>) -> Option<Seq<char>> {
    match decimal_parts(t) {
        Some(x) => if -MAX_EXPONENT <= x.exponent <= MAX_EXPONENT {
            Some(spell(x))
        } else {
            None
        },
        None => None,
    }
}

fn push_zeros(v: &mut Vec<char>, n: usize)
    ensures
        final(v)@ == old(v)@ + zeros(n as nat),
{
    let ghost start = v@;
    let mut i: usize = 0;
    while i < n
        invariant
            i <= n,
            v@ == start + zeros(i as nat),
        decreases n - i,
    {
        v.push('0');
        i += 1;
        assert(v@ =~= start + zeros(i as nat));
    }
}

fn push_range(v: &mut Vec<char>, src: &Vec<char>, a: usize, b: usize)
    requires
        a <= b <= src@.len(),
    ensures
        final(v)@ == old(v)@ + src@.subrange(a as int, b as int),
{
    let ghost start = v@;
    let mut i = a;
    while i < b
        invariant
            a <= i <= b <= src@.len(),
            v@ == start + src@.subrange(a as int, i as int),
        decreases b - i,
    {
        v.push(src[i]);
        i += 1;
        assert(v@ =~= start + src@.subrange(a as int, i as int));
    }
}

/// The value of the digits `cs[a..b]`, when it is at most `cap`.
fn bounded_value(cs: &Vec<char>, a: usize, b: usize, cap: usize) -> (r: Option<usize>)
    requires
        a <= b <= cs@.len(),
        all_digits(cs@.subrange(a as int, b as int)),
        cap <= MAX_EXPONENT,
    ensures
        r matches Some(v) ==> v == digits_value(cs@.subrange(a as int, b as int)) && v <= cap,
        r is None ==> digits_value(cs@.subrange(a as int, b as int)) > cap,
{
    let ghost d = cs@.subrange(a as int, b as int);
    let mut v: usize = 0;
    let mut i = a;
    while i < b
        invariant
            a <= i <= b <= cs@.len(),
            d == cs@.subrange(a as int, b as int),
            all_digits(d),
            cap <= MAX_EXPONENT,
            v <= cap,
            v == digits_value(cs@.subrange(a as int, i as int)),
        decreases b - i,
    {
        let c = cs[i];
        assert(d[i - a] == c);
        let ghost next = cs@.subrange(a as int, i + 1);
        assert(next.drop_last() =~= cs@.subrange(a as int, i as int));
        v = v * 10 + (c as u32 - 48) as usize;
        if v > cap {
            proof {
                assert(d.take(i + 1 - a) =~= next);
                lemma_prefix_value_le(d, i + 1 - a);
            }
            return None;
        }
        i += 1;
    }
    assert(cs@.subrange(a as int, i as int) == d);
    Some(v)
}

fn canonical_text(w: &Vec<char>, f: &Vec<char>) -> (r: String)
    requires
        all_digits(w@),
        all_digits(f@),
    ensures
        r@ == canonical_decimal(w@, f@),
{
    let mut lo: usize = 0;
    assert(w@.subrange(0, w@.len() as int) =~= w@);
    assert(f@.subrange(0, f@.len() as int) =~= f@);
    while lo < w.len() && w[lo] == '0'
        invariant
            lo <= w@.len(),
            strip_leading_zeros(w@) == strip_leading_zeros(w@.subrange(lo as int, w@.len() as int)),
        decreases w@.len() - lo,
    {
        assert(w@.subrange(lo as int, w@.len() as int).drop_first() =~= w@.subrange(
            lo + 1,
            w@.len() as int,
        ));
        lo += 1;
    }
    assert(strip_leading_zeros(w@) == w@.subrange(lo as int, w@.len() as int));
    let mut hi: usize = f.len();
    while hi > 0 && f[hi - 1] == '0'
        invariant
            hi <= f@.len(),
            strip_trailing_zeros(f@) == strip_trailing_zeros(f@.subrange(0, hi as int)),
        decreases hi,
    {
        assert(f@.subrange(0, hi as int).drop_last() =~= f@.subrange(0, hi - 1));
        hi -= 1;
    }
    assert(strip_trailing_zeros(f@) == f@.subrange(0, hi as int));
    proof {
        reveal_strlit("0");
        reveal_strlit(".");
    }
    assert("0"@ =~= seq!['0']);
    assert("."@ =~= seq!['.']);
    assert(all_digits(w@.subrange(lo as int, w@.len() as int)));
    assert(all_digits(f@.subrange(0, hi as int)));
    let mut out = String::new();
    if lo == w.len() {
        out.append("0");
    } else {
        push_digits(&mut out, w, lo, w.len());
    }
    if hi > 0 {
        out.append(".");
        push_digits(&mut out, f, 0, hi);
    }
    assert(out@ =~= canonical_decimal(w@, f@));
    out
}

/// The parts of `cs[a..b]` as a decimal literal, by position: the sign, the
/// whole digits `start..i`, the fraction digits `fl..j`, and the exponent's
/// sign and size.
struct Scanned {
    negative: bool,
    start: usize,
    i: usize,
    fl: usize,
    j: usize,
    exp_negative: bool,
    exp: usize,
}

spec fn scanned_parts(cs: Seq<char>, p: Scanned) -> DecimalText {
    DecimalText {
        negative: p.negative,
        whole: cs.subrange(p.start as int, p.i as int),
        fraction: cs.subrange(p.fl as int, p.j as int),
        exponent: if p.exp_negative {
            -(p.exp as int)
        } else {
            p.exp as int
        },
    }
}

#[verifier::rlimit(100)]
fn scan_decimal(cs: &Vec<char>, a: usize, b: usize) -> (r: Option<Scanned>)
    requires
        a <= b <= cs@.len(),
    ensures
        r is None <==> alpha_of(cs@.subrange(a as int, b as int)) is None,
        r matches Some(p) ==> {
            &&& a <= p.start <= p.i <= p.fl <= p.j <= b
            &&& p.exp <= MAX_EXPONENT
            &&& all_digits(cs@.subrange(p.start as int, p.i as int))
            &&& all_digits(cs@.subrange(p.fl as int, p.j as int))
            &&& decimal_parts(cs@.subrange(a as int, b as int)) == Some(scanned_parts(cs@, p))
        },
{
    let ghost t = cs@.subrange(a as int, b as int);
    let negative = a < b && cs[a] == '-';
    let start = if a < b && (cs[a] == '-' || cs[a] == '+') {
        a + 1
    } else {
        a
    };
    let ghost u = cs@.subrange(start as int, b as int);
    assert(sign_of(t) == (negative, u)) by {
        if a < b {
            assert(t.drop_first() =~= cs@.subrange(a + 1, b as int));
        }
        if start == a {
            assert(t =~= u);
        }
    }
    let i = digit_end(cs, start, b);
    let ghost r1 = cs@.subrange(i as int, b as int);
    let has_point = i < b && cs[i] == '.';
    let fl = if has_point {
        i + 1
    } else {
        i
    };
    let ghost r2 = cs@.subrange(fl as int, b as int);
    assert(r2 == if has_point {
        r1.drop_first()
    } else {
        r1
    }) by {
        if has_point {
            assert(r1.drop_first() =~= cs@.subrange(i + 1, b as int));
        }
    }
    let j = if has_point {
        digit_end(cs, fl, b)
    } else {
        i
    };
    assert(all_digits(cs@.subrange(fl as int, j as int))) by {
        if !has_point {
            assert(cs@.subrange(fl as int, j as int).len() == 0);
        }
    }
    proof {
        if !has_point {
            assert(r2.skip(0) =~= r2);
            assert(r2.take(0) =~= cs@.subrange(fl as int, j as int));
        }
    }
    let ghost r3 = cs@.subrange(j as int, b as int);
    assert(r2.skip(j - fl) == r3);
    if (i - start) + (j - fl) == 0 {
        return None;
    }
    let ghost parts = DecimalText {
        negative,
        whole: cs@.subrange(start as int, i as int),
        fraction: cs@.subrange(fl as int, j as int),
        exponent: 0,
    };
    if j == b {
        let r = Scanned { negative, start, i, fl, j, exp_negative: false, exp: 0 };
        assert(scanned_parts(cs@, r) == parts);
        return Some(r);
    }
    if !(cs[j] == 'e' || cs[j] == 'E') {
        return None;
    }
    let eneg = j + 1 < b && cs[j + 1] == '-';
    let es = if j + 1 < b && (cs[j + 1] == '-' || cs[j + 1] == '+') {
        j + 2
    } else {
        j + 1
    };
    let ghost ed = cs@.subrange(es as int, b as int);
    assert(sign_of(r3.drop_first()) == (eneg, ed)) by {
        assert(r3.drop_first() =~= cs@.subrange(j + 1, b as int));
        if es == j + 2 {
            assert(r3.drop_first().drop_first() =~= ed);
        } else {
            assert(r3.drop_first() =~= ed);
        }
    }
    if es == b {
        return None;
    }
    let ee = digit_end(cs, es, b);
    if ee < b {
        assert(ed[ee - es] == cs@[ee as int]);
        return None;
    }
    assert(cs@.subrange(es as int, ee as int) == ed);
    match bounded_value(cs, es, b, MAX_EXPONENT) {
        Some(v) => {
            let r = Scanned { negative, start, i, fl, j, exp_negative: eneg, exp: v };
            assert(decimal_parts(t) == Some(scanned_parts(cs@, r)));
            Some(r)
        },
        None => {
            assert(decimal_parts(t)->0.exponent == if eneg {
                -digits_value(ed)
            } else {
                digits_value(ed) as int
            });
            None
        },
    }
}

/// The canonical spelling of the number whose parts `cs` holds at `p`.
fn spell_scanned(cs: &Vec<char>, p: &Scanned) -> (r: String)
    requires
        p.start <= p.i <= p.fl <= p.j <= cs@.len(),
        p.exp <= MAX_EXPONENT,
        all_digits(cs@.subrange(p.start as int, p.i as int)),
        all_digits(cs@.subrange(p.fl as int, p.j as int)),
    ensures
        r@ == spell(scanned_parts(cs@, *p)),
{
    let ghost x = scanned_parts(cs@, *p);
    let k = p.i - p.start;
    let m = p.j - p.fl;
    let ev = p.exp;
    let mut d: Vec<char> = Vec::new();
    push_range(&mut d, cs, p.start, p.i);
    push_range(&mut d, cs, p.fl, p.j);
    assert(d@ == x.whole + x.fraction);
    let mut w: Vec<char> = Vec::new();
    let mut f: Vec<char> = Vec::new();
    if !p.exp_negative || ev == 0 {
        if k == 0 && ev == 0 {
            push_range(&mut f, &d, 0, d.len());
            assert(f@ =~= zeros(0) + d@);
        } else if ev >= m {
            push_range(&mut w, &d, 0, d.len());
            push_zeros(&mut w, ev - m);
        } else {
            push_range(&mut w, &d, 0, k + ev);
            push_range(&mut f, &d, k + ev, d.len());
        }
    } else {
        if ev >= k {
            push_zeros(&mut f, ev - k);
            push_range(&mut f, &d, 0, d.len());
        } else {
            push_range(&mut w, &d, 0, k - ev);
            push_range(&mut f, &d, k - ev, d.len());
        }
    }
    assert((w@, f@) == at_point(d@, x.whole.len() + x.exponent)) by {
        assert(w@ =~= at_point(d@, x.whole.len() + x.exponent).0);
        assert(f@ =~= at_point(d@, x.whole.len() + x.exponent).1);
    }
    assert(all_digits(d@)) by {
        assert forall|q: int| 0 <= q < d@.len() implies is_digit(#[trigger] d@[q]) by {
            if q < x.whole.len() {
                assert(d@[q] == x.whole[q]);
            } else {
                assert(d@[q] == x.fraction[q - x.whole.len()]);
            }
        }
    }
    assert(all_digits(w@)) by {
        assert forall|q: int| 0 <= q < w@.len() implies is_digit(#[trigger] w@[q]) by {
            if q < d@.len() {
                assert(w@[q] == d@[q]);
            }
        }
    }
    assert(all_digits(f@)) by {
        assert forall|q: int| 0 <= q < f@.len() implies is_digit(#[trigger] f@[q]) by {
            if f@.len() >= d@.len() {
                let z = f@.len() - d@.len();
                if q >= z {
                    assert(f@[q] == d@[q - z]);
                }
            } else {
                assert(f@[q] == d@[q + d@.len() - f@.len()]);
            }
        }
    }
    let c = canonical_text(&w, &f);
    proof {
        reveal_strlit("0");
        reveal_strlit("-");
    }
    assert("0"@ =~= seq!['0']);
    assert("-"@ =~= seq!['-']);
    if p.negative && !same_text(c.as_str(), "0") {
        let mut out = String::from_str("-");
        out.append(c.as_str());
        out
    } else {
        c
    }
}

/// Reads `cs[a..b]` as a decimal number, spelled canonically.
pub fn read_decimal(cs: &Vec<char>, a: usize, b: usize) -> (r: Option<String>)
    requires
        a <= b <= cs@.len(),
    ensures
        match alpha_of(cs@.subrange(a as int, b as int)) {
            Some(x) => r is Some && r->0@ == x,
            None => r is None,
        },
{
    match scan_decimal(cs, a, b) {
        Some(p) => Some(spell_scanned(cs, &p)),
        None => None,
    }
}

} // verus!
