//! What holds of reading and writing the `rgba(...)` encoding together.

use vstd::prelude::*;
use crate::text::{
    all_digits, byte_value, comma_at, decimal, digit_char, digit_run, digit_value, digits_value,
    is_byte_text, is_digit, is_space, split_commas, trim, trim_end, trim_start, without_plus,
};
use crate::decimal::{
    alpha_of, at_point, canonical_decimal, decimal_parts, sign_of, spell, strip_leading_zeros,
    strip_trailing_zeros, zeros, DecimalText,
};
use crate::color::{
    alpha_or_default, color_fields, color_of, color_prefix, color_text, default_alpha, default_color,
    is_well_formed, ColorView,
};

verus! {

pub open spec fn has_no_comma(x: Seq<char>) -> bool {
    forall|i: int| 0 <= i < x.len() ==> #[trigger] x[i] != ','
}

/// An alpha spelled as reading spells it.
pub open spec fn is_canonical_alpha(a: Seq<char>) -> bool {
    alpha_of(a) == Some(a)
}

/// `rgba(` `t0` `,` `t1` `,` `t2` `,` `t3` `)`.
pub open spec fn framed(t0: Seq<char>, t1: Seq<char>, t2: Seq<char>, t3: Seq<char>) -> Seq<char> {
    color_prefix() + t0 + seq![','] + t1 + seq![','] + t2 + seq![','] + t3 + seq![')']
}

proof fn lemma_comma_after(x: Seq<char>, y: Seq<char>)
    requires
        has_no_comma(x),
    ensures
        comma_at(x + seq![','] + y) == x.len(),
        comma_at(x) == x.len(),
    decreases x.len(),
{
    if x.len() > 0 {
        assert((x + seq![','] + y).drop_first() =~= x.drop_first() + seq![','] + y);
        assert(has_no_comma(x.drop_first())) by {
            assert forall|i: int| 0 <= i < x.drop_first().len() implies #[trigger] x.drop_first()[i]
                != ',' by {
                assert(x.drop_first()[i] == x[i + 1]);
            }
        }
        assert(x[0] != ',');
        assert((x + seq![','] + y)[0] == x[0]);
        lemma_comma_after(x.drop_first(), y);
    } else {
        assert((x + seq![','] + y)[0] == ',');
    }
}

proof fn lemma_split_joined(x: Seq<char>, y: Seq<char>)
    requires
        has_no_comma(x),
    ensures
        split_commas(x + seq![','] + y) == seq![x] + split_commas(y),
        split_commas(x) == seq![x],
{
    lemma_comma_after(x, y);
    let j = x + seq![','] + y;
    assert(j.take(x.len() as int) =~= x);
    assert(j.skip(x.len() + 1 as int) =~= y);
}

/// Read components separated by commas inside the frame: each one is read
/// from its trimmed text.
pub proof fn lemma_read_components(t0: Seq<char>, t1: Seq<char>, t2: Seq<char>, t3: Seq<char>)
    requires
        has_no_comma(t0),
        has_no_comma(t1),
        has_no_comma(t2),
        has_no_comma(t3),
    ensures
        color_fields(framed(t0, t1, t2, t3)) == Some(seq![trim(t0), trim(t1), trim(t2), trim(t3)]),
{
    let s = framed(t0, t1, t2, t3);
    let inner = t0 + seq![','] + t1 + seq![','] + t2 + seq![','] + t3;
    assert(s =~= color_prefix() + inner + seq![')']);
    assert(s.take(5) =~= color_prefix());
    assert(s.subrange(5, s.len() - 1) =~= inner);
    let r3 = t2 + seq![','] + t3;
    let r2 = t1 + seq![','] + r3;
    assert(inner =~= t0 + seq![','] + r2);
    lemma_split_joined(t0, r2);
    lemma_split_joined(t1, r3);
    lemma_split_joined(t2, t3);
    lemma_split_joined(t3, Seq::empty());
    assert(split_commas(inner) =~= seq![t0, t1, t2, t3]);
}

proof fn lemma_digit_char(d: nat)
    requires
        d < 10,
    ensures
        is_digit(digit_char(d)),
        digit_value(digit_char(d)) == d,
{
    if d == 0 {
        assert(digit_char(d) == '0');
    } else if d == 1 {
        assert(digit_char(d) == '1');
    } else if d == 2 {
        assert(digit_char(d) == '2');
    } else if d == 3 {
        assert(digit_char(d) == '3');
    } else if d == 4 {
        assert(digit_char(d) == '4');
    } else if d == 5 {
        assert(digit_char(d) == '5');
    } else if d == 6 {
        assert(digit_char(d) == '6');
    } else if d == 7 {
        assert(digit_char(d) == '7');
    } else if d == 8 {
        assert(digit_char(d) == '8');
    } else {
        assert(digit_char(d) == '9');
    }
}

proof fn lemma_decimal(n: nat)
    ensures
        decimal(n).len() > 0,
        all_digits(decimal(n)),
        digits_value(decimal(n)) == n,
    decreases n,
{
    let d = decimal(n);
    lemma_digit_char(n % 10);
    if n >= 10 {
        lemma_decimal(n / 10);
        assert(d.drop_last() =~= decimal(n / 10));
        assert(d.last() == digit_char(n % 10));
        assert((n / 10) * 10 + n % 10 == n) by (nonlinear_arith);
        assert forall|i: int| 0 <= i < d.len() implies is_digit(#[trigger] d[i]) by {
            if i < d.len() - 1 {
                assert(d[i] == decimal(n / 10)[i]);
            }
        }
    } else {
        assert(d.drop_last() =~= Seq::<char>::empty());
        assert(n % 10 == n);
        assert(d.last() == digit_char(n));
        assert(digits_value(Seq::<char>::empty()) == 0);
    }
}

proof fn lemma_byte_text(v: u8)
    ensures
        is_byte_text(decimal(v as nat)),
        byte_value(decimal(v as nat)) == v,
        decimal(v as nat).len() > 0,
        is_digit(decimal(v as nat)[0]),
        is_digit(decimal(v as nat).last()),
        has_no_comma(decimal(v as nat)),
{
    let d = decimal(v as nat);
    lemma_decimal(v as nat);
    assert(is_digit(d[0]));
    assert(is_digit(d[d.len() - 1]));
    assert(without_plus(d) == d);
    assert forall|i: int| 0 <= i < d.len() implies #[trigger] d[i] != ',' by {
        assert(is_digit(d[i]));
    }
}

proof fn lemma_trim_plain(x: Seq<char>)
    requires
        x.len() > 0,
        !is_space(x[0]),
        !is_space(x.last()),
    ensures
        trim(x) == x,
        trim(seq![' '] + x) == x,
{
    assert(trim_start(x) == x);
    assert(trim_end(x) == x);
    let y = seq![' '] + x;
    assert(y.drop_first() =~= x);
    assert(is_space(y[0]));
    assert(trim_start(y) == trim_start(x));
}

proof fn lemma_strip_leading(s: Seq<char>)
    requires
        all_digits(s),
    ensures
        all_digits(strip_leading_zeros(s)),
        strip_leading_zeros(s).len() == 0 || strip_leading_zeros(s)[0] != '0',
    decreases s.len(),
{
    if s.len() > 0 && s[0] == '0' {
        assert(all_digits(s.drop_first())) by {
            assert forall|i: int| 0 <= i < s.drop_first().len() implies is_digit(
                #[trigger] s.drop_first()[i],
            ) by {
                assert(s.drop_first()[i] == s[i + 1]);
            }
        }
        lemma_strip_leading(s.drop_first());
    }
}

proof fn lemma_strip_trailing(s: Seq<char>)
    requires
        all_digits(s),
    ensures
        all_digits(strip_trailing_zeros(s)),
        strip_trailing_zeros(s).len() == 0 || strip_trailing_zeros(s).last() != '0',
    decreases s.len(),
{
    if s.len() > 0 && s.last() == '0' {
        assert(all_digits(s.drop_last())) by {
            assert forall|i: int| 0 <= i < s.drop_last().len() implies is_digit(
                #[trigger] s.drop_last()[i],
            ) by {
                assert(s.drop_last()[i] == s[i]);
            }
        }
        lemma_strip_trailing(s.drop_last());
    }
}

proof fn lemma_digit_run_concat(d: Seq<char>, r: Seq<char>)
    requires
        all_digits(d),
        r.len() == 0 || r[0] == '.',
    ensures
        digit_run(d + r) == d.len(),
    decreases d.len(),
{
    if d.len() > 0 {
        assert((d + r).drop_first() =~= d.drop_first() + r);
        assert((d + r)[0] == d[0]);
        assert(all_digits(d.drop_first())) by {
            assert forall|i: int| 0 <= i < d.drop_first().len() implies is_digit(
                #[trigger] d.drop_first()[i],
            ) by {
                assert(d.drop_first()[i] == d[i + 1]);
            }
        }
        lemma_digit_run_concat(d.drop_first(), r);
    } else {
        assert(d + r =~= r);
    }
}

proof fn lemma_digit_run_prefix(u: Seq<char>)
    ensures
        digit_run(u) <= u.len(),
        all_digits(u.take(digit_run(u) as int)),
    decreases u.len(),
{
    if u.len() > 0 && is_digit(u[0]) {
        lemma_digit_run_prefix(u.drop_first());
        let k = digit_run(u) as int;
        assert forall|i: int| 0 <= i < k implies is_digit(#[trigger] u.take(k)[i]) by {
            if i > 0 {
                assert(u.take(k)[i] == u.drop_first().take(k - 1)[i - 1]);
            }
        }
    } else {
        assert(u.take(0).len() == 0);
    }
}

/// The canonical spelling of a decimal number is a run of digits, then
/// possibly `.` and more digits, and reading it gives it back.
proof fn lemma_canonical(w: Seq<char>, f: Seq<char>)
    requires
        all_digits(w),
        all_digits(f),
    ensures
        ({
            let c = canonical_decimal(w, f);
            &&& c.len() > 0
            &&& is_digit(c[0])
            &&& is_digit(c.last())
            &&& has_no_comma(c)
            &&& is_canonical_alpha(c)
            &&& c != seq!['0'] ==> is_canonical_alpha(seq!['-'] + c)
        }),
{
    let c = canonical_decimal(w, f);
    let ws = strip_leading_zeros(w);
    let fs = strip_trailing_zeros(f);
    lemma_strip_leading(w);
    lemma_strip_trailing(f);
    let head = if ws.len() == 0 {
        seq!['0']
    } else {
        ws
    };
    let tail = if fs.len() == 0 {
        Seq::<char>::empty()
    } else {
        seq!['.'] + fs
    };
    assert(c == head + tail);
    assert(all_digits(head));
    assert(is_digit(c[0])) by {
        assert(c[0] == head[0]);
    }
    assert(is_digit(c.last())) by {
        if fs.len() == 0 {
            assert(c.last() == head.last());
        } else {
            assert(c.last() == fs.last());
        }
    }
    assert forall|i: int| 0 <= i < c.len() implies #[trigger] c[i] != ',' by {
        if i < head.len() {
            assert(c[i] == head[i]);
            assert(is_digit(head[i]));
        } else if i == head.len() {
            assert(c[i] == '.');
        } else {
            assert(c[i] == fs[i - head.len() - 1]);
            assert(is_digit(fs[i - head.len() - 1]));
        }
    }
    assert(sign_of(c) == (false, c));
    lemma_digit_run_concat(head, tail);
    assert(c.take(head.len() as int) =~= head);
    assert(c.skip(head.len() as int) =~= tail);
    let x = DecimalText { negative: false, whole: head, fraction: fs, exponent: 0 };
    let d = head + fs;
    if fs.len() == 0 {
        assert(tail.skip(0) =~= tail);
        assert(tail.take(0) =~= fs);
        assert(decimal_parts(c) == Some(x));
        assert(d + zeros(0) =~= head);
        assert(at_point(d, head.len() as int) == (head, fs));
    } else {
        assert(tail.drop_first() =~= fs);
        lemma_digit_run_concat(fs, Seq::<char>::empty());
        assert(fs + Seq::<char>::empty() =~= fs);
        assert(fs.take(fs.len() as int) =~= fs);
        assert(fs.skip(fs.len() as int) =~= Seq::<char>::empty());
        assert(decimal_parts(c) == Some(x));
        assert(d.take(head.len() as int) =~= head);
        assert(d.skip(head.len() as int) =~= fs);
    }
    assert(strip_leading_zeros(head) == ws) by {
        if ws.len() == 0 {
            assert(head.drop_first() =~= Seq::<char>::empty());
            assert(strip_leading_zeros(head) == strip_leading_zeros(head.drop_first()));
            assert(strip_leading_zeros(Seq::<char>::empty()) == Seq::<char>::empty());
        } else {
            assert(head == ws);
        }
    }
    assert(strip_trailing_zeros(Seq::<char>::empty()) == Seq::<char>::empty());
    assert(strip_trailing_zeros(fs) == fs);
    if fs.len() == 0 {
        assert(canonical_decimal(head, Seq::<char>::empty()) =~= c);
    } else {
        assert(canonical_decimal(head, fs) =~= c);
    }
    assert(spell(x) == c);
    let n = seq!['-'] + c;
    assert(n.drop_first() =~= c);
    assert(sign_of(n) == (true, c));
    assert(decimal_parts(n) == Some(DecimalText { negative: true, ..x }));
}

/// The whole and fraction digits of a decimal literal are digits.
proof fn lemma_parts_digits(t: Seq<char>)
    requires
        decimal_parts(t) is Some,
    ensures
        all_digits(decimal_parts(t)->0.whole),
        all_digits(decimal_parts(t)->0.fraction),
{
    let u = sign_of(t).1;
    lemma_digit_run_prefix(u);
    let r1 = u.skip(digit_run(u) as int);
    if r1.len() > 0 && r1[0] == '.' {
        lemma_digit_run_prefix(r1.drop_first());
    } else {
        assert(r1.take(0).len() == 0);
    }
}

/// The canonical spelling of a number is text that reads back as itself,
/// without commas and without whitespace at either end.
proof fn lemma_spell_shape(x: DecimalText)
    requires
        all_digits(x.whole),
        all_digits(x.fraction),
    ensures
        ({
            let a = spell(x);
            &&& a.len() > 0
            &&& !is_space(a[0])
            &&& !is_space(a.last())
            &&& has_no_comma(a)
            &&& is_canonical_alpha(a)
        }),
{
    let d = x.whole + x.fraction;
    let p = x.whole.len() + x.exponent;
    let (w, f) = at_point(d, p);
    assert(all_digits(d)) by {
        assert forall|q: int| 0 <= q < d.len() implies is_digit(#[trigger] d[q]) by {
            if q < x.whole.len() {
                assert(d[q] == x.whole[q]);
            } else {
                assert(d[q] == x.fraction[q - x.whole.len()]);
            }
        }
    }
    assert(all_digits(w)) by {
        assert forall|q: int| 0 <= q < w.len() implies is_digit(#[trigger] w[q]) by {
            if q < d.len() {
                assert(w[q] == d[q]);
            }
        }
    }
    assert(all_digits(f)) by {
        assert forall|q: int| 0 <= q < f.len() implies is_digit(#[trigger] f[q]) by {
            if p <= 0 {
                let z = -p;
                if q >= z {
                    assert(f[q] == d[q - z]);
                }
            } else if p < d.len() {
                assert(f[q] == d[q + p]);
            }
        }
    }
    lemma_canonical(w, f);
    let c = canonical_decimal(w, f);
    if x.negative && c != seq!['0'] {
        let a = seq!['-'] + c;
        assert(a[0] == '-');
        assert(a.last() == c.last());
        assert forall|i: int| 0 <= i < a.len() implies #[trigger] a[i] != ',' by {
            if i > 0 {
                assert(a[i] == c[i - 1]);
            }
        }
    }
}

/// Reading an alpha, with its default where it cannot be read, always gives
/// a canonically spelled one.
pub proof fn lemma_read_alpha_canonical(t: Seq<char>)
    ensures
        is_canonical_alpha(alpha_or_default(t)),
{
    if alpha_of(t) is Some {
        lemma_parts_digits(t);
        lemma_spell_shape(decimal_parts(t)->0);
    } else {
        lemma_default_alpha_canonical();
    }
}

/// `0.7`, the alpha that stands in for an unreadable one, is spelled
/// canonically.
pub proof fn lemma_default_alpha_canonical()
    ensures
        is_canonical_alpha(default_alpha()),
{
    let w = seq!['0'];
    let f = seq!['7'];
    assert(all_digits(w));
    assert(all_digits(f));
    lemma_canonical(w, f);
    assert(w.drop_first() =~= Seq::<char>::empty());
    assert(strip_leading_zeros(w) == strip_leading_zeros(w.drop_first()));
    assert(strip_leading_zeros(Seq::<char>::empty()) == Seq::<char>::empty());
    assert(strip_trailing_zeros(f) == f);
    assert(canonical_decimal(w, f) =~= default_alpha());
}

/// Reading what writing gives returns the color written: every byte and every
/// canonically spelled alpha comes back exactly.
pub proof fn lemma_read_written(c: ColorView)
    requires
        is_canonical_alpha(c.alpha),
    ensures
        color_of(color_text(c)) == c,
        is_well_formed(color_text(c)),
{
    let a = c.alpha;
    lemma_parts_digits(a);
    lemma_spell_shape(decimal_parts(a)->0);
    let t0 = decimal(c.red as nat);
    let t1 = seq![' '] + decimal(c.green as nat);
    let t2 = seq![' '] + decimal(c.blue as nat);
    let t3 = seq![' '] + a;
    lemma_byte_text(c.red);
    lemma_byte_text(c.green);
    lemma_byte_text(c.blue);
    assert(has_no_comma(t1)) by {
        assert forall|i: int| 0 <= i < t1.len() implies #[trigger] t1[i] != ',' by {
            if i > 0 {
                assert(t1[i] == decimal(c.green as nat)[i - 1]);
            }
        }
    }
    assert(has_no_comma(t2)) by {
        assert forall|i: int| 0 <= i < t2.len() implies #[trigger] t2[i] != ',' by {
            if i > 0 {
                assert(t2[i] == decimal(c.blue as nat)[i - 1]);
            }
        }
    }
    assert(has_no_comma(t3)) by {
        assert forall|i: int| 0 <= i < t3.len() implies #[trigger] t3[i] != ',' by {
            if i > 0 {
                assert(t3[i] == a[i - 1]);
            }
        }
    }
    assert(color_text(c) =~= framed(t0, t1, t2, t3));
    lemma_read_components(t0, t1, t2, t3);
    lemma_trim_plain(decimal(c.red as nat));
    lemma_trim_plain(decimal(c.green as nat));
    lemma_trim_plain(decimal(c.blue as nat));
    lemma_trim_plain(a);
}

/// A component that cannot be read takes its own default while the others are
/// read; text without the frame or without exactly four components reads as
/// the default color.
pub proof fn lemma_fallback_per_component(s: Seq<char>)
    ensures
        !(s.len() >= 6 && s.take(5) == color_prefix() && s.last() == ')') ==> color_of(s)
            == default_color(),
        s.len() >= 6 && split_commas(s.subrange(5, s.len() - 1)).len() != 4 ==> color_of(s)
            == default_color(),
        color_fields(s) matches Some(p) ==> {
            &&& color_of(s).red == if is_byte_text(p[0]) {
                byte_value(p[0])
            } else {
                99
            }
            &&& color_of(s).green == if is_byte_text(p[1]) {
                byte_value(p[1])
            } else {
                162
            }
            &&& color_of(s).blue == if is_byte_text(p[2]) {
                byte_value(p[2])
            } else {
                255
            }
            &&& color_of(s).alpha == match alpha_of(p[3]) {
                Some(x) => x,
                None => default_color().alpha,
            }
        },
{
}

/// Writing what reading gives, from text in which every component can be read,
/// yields the canonical spelling of the same color: reading it again gives the
/// same values, and writing those again gives the same text.
pub proof fn lemma_rewrite_round_trip(s: Seq<char>)
    requires
        is_well_formed(s),
    ensures
        color_of(color_text(color_of(s))) == color_of(s),
        color_text(color_of(color_text(color_of(s)))) == color_text(color_of(s)),
        is_well_formed(color_text(color_of(s))),
{
    let p = color_fields(s)->0;
    lemma_parts_digits(p[3]);
    lemma_spell_shape(decimal_parts(p[3])->0);
    lemma_read_written(color_of(s));
}

} // verus!
