//! Character-level text handling shared by the codecs: whitespace trimming,
//! comma splitting and unsigned decimal numbers.

use vstd::prelude::*;

verus! {

/// A Unicode `White_Space` character: what `char::is_whitespace` accepts and
/// what `str::trim` removes.
pub open spec fn is_space(c: char) -> bool {
    let u = c as u32;
    (0x9 <= u <= 0xd) || u == 0x20 || u == 0x85 || u == 0xa0 || u == 0x1680 || (0x2000 <= u
        <= 0x200a) || u == 0x2028 || u == 0x2029 || u == 0x202f || u == 0x205f || u == 0x3000
}

pub open spec fn trim_start(s: Seq<char>) -> Seq<char>
    decreases s.len(),
{
    if s.len() > 0 && is_space(s[0]) {
        trim_start(s.drop_first())
    } else {
        s
    }
}

pub open spec fn trim_end(s: Seq<char>) -> Seq<char>
    decreases s.len(),
{
    if s.len() > 0 && is_space(s.last()) {
        trim_end(s.drop_last())
    } else {
        s
    }
}

/// `s` without its leading and trailing whitespace.
pub open spec fn trim(s: Seq<char>) -> Seq<char> {
    trim_end(trim_start(s))
}

/// Position of the first comma of `s`, or its length when it has none.
pub open spec fn comma_at(s: Seq<char>) -> nat
    decreases s.len(),
{
    if s.len() == 0 {
        0
    } else if s[0] == ',' {
        0
    } else {
        1 + comma_at(s.drop_first())
    }
}

/// The pieces of `s` between commas, as `str::split(',')` yields them.
pub open spec fn split_commas(s: Seq<char>) -> Seq<Seq<char>>
    decreases s.len(),
{
    if comma_at(s) < s.len() {
        seq![s.take(comma_at(s) as int)] + split_commas(s.skip(comma_at(s) + 1 as int))
    } else {
        seq![s]
    }
}

pub open spec fn is_digit(c: char) -> bool {
    48 <= c as u32 <= 57
}

pub open spec fn digit_value(c: char) -> nat {
    (c as u32 - 48) as nat
}

pub open spec fn all_digits(s: Seq<char>) -> bool {
    forall|i: int| 0 <= i < s.len() ==> is_digit(#[trigger] s[i])
}

/// The number that a run of decimal digits spells.
pub open spec fn digits_value(s: Seq<char>) -> nat
    decreases s.len(),
{
    if s.len() == 0 {
        0
    } else {
        digits_value(s.drop_last()) * 10 + digit_value(s.last())
    }
}

/// `s` without one leading `+`.
pub open spec fn without_plus(s: Seq<char>) -> Seq<char> {
    if s.len() > 0 && s[0] == '+' {
        s.drop_first()
    } else {
        s
    }
}

/// Text that `u8::from_str` accepts: an optional `+`, then one or more decimal
/// digits whose value is at most 255.
pub open spec fn is_byte_text(t: Seq<char>) -> bool {
    let d = without_plus(t);
    d.len() > 0 && all_digits(d) && digits_value(d) <= 255
}

pub open spec fn byte_value(t: Seq<char>) -> u8 {
    digits_value(without_plus(t)) as u8
}

pub open spec fn digit_char(d: nat) -> char {
    seq!['0', '1', '2', '3', '4', '5', '6', '7', '8', '9'][d as int]
}

/// The shortest decimal spelling of `n`.
pub open spec fn decimal(n: nat) -> Seq<char>
    decreases n,
{
    if n < 10 {
        seq![digit_char(n)]
    } else {
        decimal(n / 10).push(digit_char(n % 10))
    }
}

pub fn is_space_char(c: char) -> (r: bool)
    ensures
        r == is_space(c),
{
    let u = c as u32;
    (0x9 <= u && u <= 0xd) || u == 0x20 || u == 0x85 || u == 0xa0 || u == 0x1680 || (0x2000 <= u
        && u <= 0x200a) || u == 0x2028 || u == 0x2029 || u == 0x202f || u == 0x205f || u == 0x3000
}

pub fn is_digit_char(c: char) -> (r: bool)
    ensures
        r == is_digit(c),
{
    let u = c as u32;
    48 <= u && u <= 57
}

/// The characters of `s`, one by one.
pub fn chars_of(s: &str) -> (r: Vec<char>)
    ensures
        r@ == s@,
{
    let n = s.unicode_len();
    let mut r: Vec<char> = Vec::new();
    let mut i: usize = 0;
    while i < n
        invariant
            n == s@.len(),
            i <= n,
            r@ == s@.take(i as int),
        decreases n - i,
    {
        r.push(s.get_char(i));
        i += 1;
        assert(r@ =~= s@.take(i as int));
    }
    assert(r@ =~= s@);
    r
}

/// The bounds of `cs[lo..hi]` with its surrounding whitespace removed.
pub fn trim_range(cs: &Vec<char>, lo: usize, hi: usize) -> (r: (usize, usize))
    requires
        lo <= hi <= cs@.len(),
    ensures
        lo <= r.0 <= r.1 <= hi,
        cs@.subrange(r.0 as int, r.1 as int) == trim(cs@.subrange(lo as int, hi as int)),
{
    let ghost s = cs@;
    let mut a = lo;
    while a < hi && is_space_char(cs[a])
        invariant
            lo <= a <= hi <= s.len(),
            s == cs@,
            trim_start(s.subrange(lo as int, hi as int)) == trim_start(
                s.subrange(a as int, hi as int),
            ),
        decreases hi - a,
    {
        assert(s.subrange(a as int, hi as int).drop_first() =~= s.subrange(a + 1, hi as int));
        a += 1;
    }
    assert(trim_start(s.subrange(a as int, hi as int)) == s.subrange(a as int, hi as int));
    let mut b = hi;
    while b > a && is_space_char(cs[b - 1])
        invariant
            lo <= a <= b <= hi <= s.len(),
            s == cs@,
            trim_end(s.subrange(a as int, hi as int)) == trim_end(s.subrange(a as int, b as int)),
        decreases b - a,
    {
        assert(s.subrange(a as int, b as int).drop_last() =~= s.subrange(a as int, b - 1));
        b -= 1;
    }
    assert(trim_end(s.subrange(a as int, b as int)) == s.subrange(a as int, b as int));
    (a, b)
}

/// The position of the first comma in `cs[p..hi]`, or `hi` when there is none.
pub fn next_comma(cs: &Vec<char>, p: usize, hi: usize) -> (q: usize)
    requires
        p <= hi <= cs@.len(),
    ensures
        p <= q <= hi,
        q == p + comma_at(cs@.subrange(p as int, hi as int)),
{
    let ghost s = cs@;
    let mut q = p;
    while q < hi && cs[q] != ','
        invariant
            p <= q <= hi <= s.len(),
            s == cs@,
            comma_at(s.subrange(p as int, hi as int)) == (q - p) + comma_at(
                s.subrange(q as int, hi as int),
            ),
        decreases hi - q,
    {
        assert(s.subrange(q as int, hi as int).drop_first() =~= s.subrange(q + 1, hi as int));
        q += 1;
    }
    q
}

/// A prefix of a run of digits spells at most what the whole run spells.
pub proof fn lemma_prefix_value_le(s: Seq<char>, k: int)
    requires
        all_digits(s),
        0 <= k <= s.len(),
    ensures
        digits_value(s.take(k)) <= digits_value(s),
    decreases s.len(),
{
    if k < s.len() {
        assert(s.drop_last().take(k) =~= s.take(k));
        assert(all_digits(s.drop_last()));
        lemma_prefix_value_le(s.drop_last(), k);
    } else {
        assert(s.take(k) =~= s);
    }
}

/// Reads `cs[a..b]` as `u8::from_str` does.
pub fn parse_byte(cs: &Vec<char>, a: usize, b: usize) -> (r: Option<u8>)
    requires
        a <= b <= cs@.len(),
    ensures
        r == (if is_byte_text(cs@.subrange(a as int, b as int)) {
            Some(byte_value(cs@.subrange(a as int, b as int)))
        } else {
            None
        }),
{
    let ghost t = cs@.subrange(a as int, b as int);
    let start = if a < b && cs[a] == '+' {
        a + 1
    } else {
        a
    };
    let ghost d = cs@.subrange(start as int, b as int);
    assert(without_plus(t) =~= d);
    if start == b {
        return None;
    }
    let mut v: u32 = 0;
    let mut i = start;
    while i < b
        invariant
            a <= start <= i <= b <= cs@.len(),
            d == cs@.subrange(start as int, b as int),
            t == cs@.subrange(a as int, b as int),
            without_plus(t) == d,
            d.len() > 0,
            v <= 255,
            v == digits_value(cs@.subrange(start as int, i as int)),
            all_digits(cs@.subrange(start as int, i as int)),
        decreases b - i,
    {
        let c = cs[i];
        if !is_digit_char(c) {
            assert(d[i - start] == c);
            assert(!all_digits(d));
            assert(!is_byte_text(t));
            return None;
        }
        let ghost next = cs@.subrange(start as int, i + 1);
        assert(next.drop_last() =~= cs@.subrange(start as int, i as int));
        v = v * 10 + (c as u32 - 48);
        if v > 255 {
            proof {
                if all_digits(d) {
                    assert(d.take(i + 1 - start) =~= next);
                    lemma_prefix_value_le(d, i + 1 - start);
                }
                assert(!is_byte_text(t));
            }
            return None;
        }
        i += 1;
    }
    assert(cs@.subrange(start as int, i as int) == d);
    Some(v as u8)
}

/// Whether `a` and `b` hold the same characters.
pub fn same_text(a: &str, b: &str) -> (r: bool)
    ensures
        r == (a@ == b@),
{
    let x = chars_of(a);
    let y = chars_of(b);
    if x.len() != y.len() {
        return false;
    }
    let mut i: usize = 0;
    while i < x.len()
        invariant
            x@ == a@,
            y@ == b@,
            x@.len() == y@.len(),
            i <= x@.len(),
            forall|j: int| 0 <= j < i ==> x@[j] == y@[j],
        decreases x@.len() - i,
    {
        if x[i] != y[i] {
            assert(a@[i as int] != b@[i as int]);
            return false;
        }
        i += 1;
    }
    assert(x@ =~= y@);
    true
}

/// A decimal digit spells the value it stands for.
pub proof fn lemma_char_digit(c: char)
    requires
        is_digit(c),
    ensures
        digit_value(c) < 10,
        digit_char(digit_value(c)) == c,
{
    let u = c as u32;
    if u == 48 {
        assert(c == '0');
    } else if u == 49 {
        assert(c == '1');
    } else if u == 50 {
        assert(c == '2');
    } else if u == 51 {
        assert(c == '3');
    } else if u == 52 {
        assert(c == '4');
    } else if u == 53 {
        assert(c == '5');
    } else if u == 54 {
        assert(c == '6');
    } else if u == 55 {
        assert(c == '7');
    } else if u == 56 {
        assert(c == '8');
    } else {
        assert(c == '9');
    }
}

/// The one-character text of digit `d`.
pub fn digit_str(d: u8) -> (r: &'static str)
    requires
        d < 10,
    ensures
        r@ == seq![digit_char(d as nat)],
{
    proof {
        reveal_strlit("0");
        reveal_strlit("1");
        reveal_strlit("2");
        reveal_strlit("3");
        reveal_strlit("4");
        reveal_strlit("5");
        reveal_strlit("6");
        reveal_strlit("7");
        reveal_strlit("8");
        reveal_strlit("9");
    }
    let r = match d {
        0 => "0",
        1 => "1",
        2 => "2",
        3 => "3",
        4 => "4",
        5 => "5",
        6 => "6",
        7 => "7",
        8 => "8",
        _ => "9",
    };
    assert(r@ =~= seq![digit_char(d as nat)]);
    r
}

/// Appends the digits `v[a..b]` to `out`.
pub fn push_digits(out: &mut String, v: &Vec<char>, a: usize, b: usize)
    requires
        a <= b <= v@.len(),
        all_digits(v@.subrange(a as int, b as int)),
    ensures
        final(out)@ == old(out)@ + v@.subrange(a as int, b as int),
{
    let ghost start = out@;
    let mut i = a;
    while i < b
        invariant
            a <= i <= b <= v@.len(),
            all_digits(v@.subrange(a as int, b as int)),
            out@ == start + v@.subrange(a as int, i as int),
        decreases b - i,
    {
        let c = v[i];
        assert(v@.subrange(a as int, b as int)[i - a] == c);
        proof {
            lemma_char_digit(c);
        }
        out.append(digit_str((c as u32 - 48) as u8));
        i += 1;
        assert(out@ =~= start + v@.subrange(a as int, i as int));
    }
}

/// The end of the run of digits that starts at `a` in `cs[a..b]`.
pub fn digit_end(cs: &Vec<char>, a: usize, b: usize) -> (i: usize)
    requires
        a <= b <= cs@.len(),
    ensures
        a <= i <= b,
        i - a == digit_run(cs@.subrange(a as int, b as int)),
        all_digits(cs@.subrange(a as int, i as int)),
        i < b ==> !is_digit(cs@[i as int]),
        cs@.subrange(a as int, b as int).take(i - a) == cs@.subrange(a as int, i as int),
        cs@.subrange(a as int, b as int).skip(i - a) == cs@.subrange(i as int, b as int),
{
    let mut i = a;
    while i < b && is_digit_char(cs[i])
        invariant
            a <= i <= b <= cs@.len(),
            digit_run(cs@.subrange(a as int, b as int)) == (i - a) + digit_run(
                cs@.subrange(i as int, b as int),
            ),
            all_digits(cs@.subrange(a as int, i as int)),
        decreases b - i,
    {
        assert(cs@.subrange(i as int, b as int).drop_first() =~= cs@.subrange(i + 1, b as int));
        i += 1;
        assert(all_digits(cs@.subrange(a as int, i as int))) by {
            assert forall|j: int| 0 <= j < i - a implies is_digit(
                #[trigger] cs@.subrange(a as int, i as int)[j],
            ) by {
                if j < i - 1 - a {
                    assert(cs@.subrange(a as int, i - 1)[j] == cs@.subrange(a as int, i as int)[j]);
                }
            }
        }
    }
    assert(digit_run(cs@.subrange(i as int, b as int)) == 0);
    assert(cs@.subrange(a as int, b as int).take(i - a) =~= cs@.subrange(a as int, i as int));
    assert(cs@.subrange(a as int, b as int).skip(i - a) =~= cs@.subrange(i as int, b as int));
    i
}

/// Number of leading decimal digits of `s`.
pub open spec fn digit_run(s: Seq<char>) -> nat
    decreases s.len(),
{
    if s.len() > 0 && is_digit(s[0]) {
        1 + digit_run(s.drop_first())
    } else {
        0
    }
}

} // verus!
