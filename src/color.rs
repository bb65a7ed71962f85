//! The legacy `rgba(R, G, B, A)` color encoding of the color-valued keys.
//!
//! Red, green and blue are bytes. The alpha is read as a floating-point
//! literal and kept as the canonical spelling of the number it denotes (see
//! `decimal`), so two alphas are equal numbers exactly when their spellings
//! are equal.

use vstd::prelude::*;
use crate::decimal::{alpha_of, read_decimal};

use crate::text::{
    byte_value, chars_of, comma_at, decimal, digit_char, digit_str, is_byte_text, next_comma, parse_byte,
    split_commas, trim, trim_range,
};

verus! {

#[derive(Clone, Debug, PartialEq, Eq)]
pub struct Color {
    pub red: u8,
    pub green: u8,
    pub blue: u8,
    /// Canonical decimal spelling of the opacity.
    pub alpha: String,
}

pub struct ColorView {
    pub red: u8,
    pub green: u8,
    pub blue: u8,
    pub alpha: Seq<char>,
}

impl View for Color {
    type V = ColorView;

    open spec fn view(&self) -> ColorView {
        ColorView { red: self.red, green: self.green, blue: self.blue, alpha: self.alpha@ }
    }
}

pub open spec fn color_prefix() -> Seq<char> {
    seq!['r', 'g', 'b', 'a', '(']
}

pub open spec fn separator() -> Seq<char> {
    seq![',', ' ']
}

/// The alpha that stands in for one that cannot be read: `0.7`.
pub open spec fn default_alpha() -> Seq<char> {
    seq!['0', '.', '7']
}

/// The color that stands in for components that cannot be read.
pub open spec fn default_color() -> ColorView {
    ColorView { red: 99, green: 162, blue: 255, alpha: default_alpha() }
}

/// The four trimmed components of `rgba(...)` text, when it has that frame and
/// exactly four comma-separated parts.
pub open spec fn color_fields(s: Seq<char>) -> Option<Seq<Seq<char>>> {
    if s.len() >= 6 && s.take(5) == color_prefix() && s.last() == ')' {
        let parts = split_commas(s.subrange(5, s.len() - 1));
        if parts.len() == 4 {
            Some(seq![trim(parts[0]), trim(parts[1]), trim(parts[2]), trim(parts[3])])
        } else {
            None
        }
    } else {
        None
    }
}

pub open spec fn byte_or(t: Seq<char>, d: u8) -> u8 {
    if is_byte_text(t) {
        byte_value(t)
    } else {
        d
    }
}

pub open spec fn alpha_or_default(t: Seq<char>) -> Seq<char> {
    match alpha_of(t) {
        Some(a) => a,
        None => default_alpha(),
    }
}

/// The color that `s` encodes. Each component that cannot be read takes its
/// default; when the frame or the number of components is wrong, all do.
pub open spec fn color_of(s: Seq<char>) -> ColorView {
    match color_fields(s) {
        Some(p) => ColorView {
            red: byte_or(p[0], 99),
            green: byte_or(p[1], 162),
            blue: byte_or(p[2], 255),
            alpha: alpha_or_default(p[3]),
        },
        None => default_color(),
    }
}

/// Text in which every component can be read.
pub open spec fn is_well_formed(s: Seq<char>) -> bool {
    match color_fields(s) {
        Some(p) => is_byte_text(p[0]) && is_byte_text(p[1]) && is_byte_text(p[2]) && alpha_of(
            p[3],
        ) is Some,
        None => false,
    }
}

/// The encoding `rgba(R, G, B, A)`.
pub open spec fn color_text(c: ColorView) -> Seq<char> {
    color_prefix() + decimal(c.red as nat) + separator() + decimal(c.green as nat) + separator()
        + decimal(c.blue as nat) + separator() + c.alpha + seq![')']
}


impl Color {
    /// The color used where stored text cannot be read: `rgba(99, 162, 255, 0.7)`.
    pub fn fallback() -> (r: Color)
        ensures
            r@ == default_color(),
    {
        proof {
            reveal_strlit("0.7");
        }
        assert("0.7"@ =~= default_alpha());
        Color { red: 99, green: 162, blue: 255, alpha: String::from_str("0.7") }
    }
}

fn push_decimal(out: &mut String, v: u8)
    ensures
        final(out)@ == old(out)@ + decimal(v as nat),
{
    let ghost n = v as nat;
    if v >= 100 {
        out.append(digit_str(v / 100));
        assert(decimal(n / 100) == seq![digit_char(n / 100)]);
        assert((n / 10) / 10 == n / 100);
        assert(decimal(n / 10) == decimal(n / 100).push(digit_char((n / 10) % 10)));
    } else if v >= 10 {
        assert(decimal(n / 10) == seq![digit_char(n / 10)]);
    }
    if v >= 10 {
        out.append(digit_str((v / 10) % 10));
    }
    out.append(digit_str(v % 10));
    assert(final(out)@ =~= old(out)@ + decimal(n)) by {
        if n >= 10 {
            assert(decimal(n) == decimal(n / 10).push(digit_char(n % 10)));
        }
    }
}

/// Writes a color as `rgba(R, G, B, A)`: the bytes in decimal, the alpha as
/// it is spelled.
pub fn format_color(c: &Color) -> (r: String)
    ensures
        r@ == color_text(c@),
{
    proof {
        reveal_strlit("rgba(");
        reveal_strlit(", ");
        reveal_strlit(")");
    }
    assert("rgba("@ =~= color_prefix());
    assert(", "@ =~= separator());
    assert(")"@ =~= seq![')']);
    let mut out = String::from_str("rgba(");
    push_decimal(&mut out, c.red);
    out.append(", ");
    push_decimal(&mut out, c.green);
    out.append(", ");
    push_decimal(&mut out, c.blue);
    out.append(", ");
    out.append(c.alpha.as_str());
    out.append(")");
    assert(out@ =~= color_text(c@));
    out
}


/// Reads `s` as an alpha: a floating-point literal, spelled canonically.
pub fn alpha_from_text(s: &str) -> (r: Option<String>)
    ensures
        match alpha_of(s@) {
            Some(x) => r is Some && r->0@ == x,
            None => r is None,
        },
{
    let cs = chars_of(s);
    assert(cs@.subrange(0, cs@.len() as int) =~= s@);
    read_decimal(&cs, 0, cs.len())
}

/// The pieces of `s[lo..hi]` when the first comma in it is at `q`.
proof fn lemma_split_step(s: Seq<char>, lo: int, hi: int, q: int)
    requires
        0 <= lo <= q <= hi <= s.len(),
        q == lo + comma_at(s.subrange(lo, hi)),
    ensures
        q < hi ==> split_commas(s.subrange(lo, hi)) == seq![s.subrange(lo, q)] + split_commas(
            s.subrange(q + 1, hi),
        ),
        q == hi ==> split_commas(s.subrange(lo, hi)) == seq![s.subrange(lo, hi)],
{
    let t = s.subrange(lo, hi);
    assert(t.take(q - lo) =~= s.subrange(lo, q));
    if q < hi {
        assert(t.skip(q - lo + 1) =~= s.subrange(q + 1, hi));
    }
}

proof fn lemma_split_nonempty(s: Seq<char>)
    ensures
        split_commas(s).len() >= 1,
{
}

/// Reads `rgba(R, G, B, A)` text. A component that cannot be read takes its
/// default (99, 162, 255 and 0.7); when the text lacks the `rgba(`...`)` frame
/// or does not hold exactly four comma-separated components, all do.
pub fn parse_color(s: &str) -> (r: Color)
    ensures
        r@ == color_of(s@),
{
    let cs = chars_of(s);
    let n = cs.len();
    if n >= 6 && cs[0] == 'r' && cs[1] == 'g' && cs[2] == 'b' && cs[3] == 'a' && cs[4] == '('
        && cs[n - 1] == ')' {
        assert(cs@.take(5) =~= color_prefix());
        let lo: usize = 5;
        let hi: usize = n - 1;
        let p1 = next_comma(&cs, lo, hi);
        proof {
            lemma_split_step(cs@, lo as int, hi as int, p1 as int);
        }
        if p1 < hi {
            let p2 = next_comma(&cs, p1 + 1, hi);
            proof {
                lemma_split_step(cs@, p1 + 1, hi as int, p2 as int);
            }
            if p2 < hi {
                let p3 = next_comma(&cs, p2 + 1, hi);
                proof {
                    lemma_split_step(cs@, p2 + 1, hi as int, p3 as int);
                }
                if p3 < hi {
                    let p4 = next_comma(&cs, p3 + 1, hi);
                    proof {
                        lemma_split_step(cs@, p3 + 1, hi as int, p4 as int);
                        if p4 < hi {
                            lemma_split_nonempty(cs@.subrange(p4 + 1, hi as int));
                        }
                    }
                    if p4 == hi {
                        let ghost parts = split_commas(cs@.subrange(lo as int, hi as int));
                        assert(parts.len() == 4);
                        assert(parts[0] == cs@.subrange(lo as int, p1 as int));
                        assert(parts[1] == cs@.subrange(p1 + 1, p2 as int));
                        assert(parts[2] == cs@.subrange(p2 + 1, p3 as int));
                        assert(parts[3] == cs@.subrange(p3 + 1, hi as int));
                        let (a0, b0) = trim_range(&cs, lo, p1);
                        let (a1, b1) = trim_range(&cs, p1 + 1, p2);
                        let (a2, b2) = trim_range(&cs, p2 + 1, p3);
                        let (a3, b3) = trim_range(&cs, p3 + 1, hi);
                        let red = match parse_byte(&cs, a0, b0) {
                            Some(v) => v,
                            None => 99,
                        };
                        let green = match parse_byte(&cs, a1, b1) {
                            Some(v) => v,
                            None => 162,
                        };
                        let blue = match parse_byte(&cs, a2, b2) {
                            Some(v) => v,
                            None => 255,
                        };
                        let alpha = match read_decimal(&cs, a3, b3) {
                            Some(x) => x,
                            None => Color::fallback().alpha,
                        };
                        return Color { red, green, blue, alpha };
                    }
                }
            }
        }
    }
    Color::fallback()
}

} // verus!
