//! Numeric literals: decimal, `0x` hexadecimal and `0b` binary, as `u16`.
use vstd::prelude::*;
use crate::lexer::{chars_of, starts_with};

verus! {

/// The value of digit `c` in base `radix` (2, 10 or 16), if it is one.
pub open spec fn digit_value(c: char, radix: nat) -> Option<nat> {
    let v: nat = if '0' <= c && c <= '9' {
        (c as nat - '0' as nat) as nat
    } else if 'a' <= c && c <= 'z' {
        (c as nat - 'a' as nat + 10) as nat
    } else if 'A' <= c && c <= 'Z' {
        (c as nat - 'A' as nat + 10) as nat
    } else {
        36
    };
    if v < radix { Some(v) } else { None }
}

/// Reads the digits `s[0..i]` from the left; `None` on a bad digit or once
/// the value passes `u16::MAX`.
pub open spec fn digits_value(s: Seq<char>, radix: nat, i: nat) -> Option<nat>
    decreases i,
{
    if i == 0 {
        Some(0)
    } else {
        match digits_value(s, radix, (i - 1) as nat) {
            None => None,
            Some(a) => match digit_value(s[i - 1], radix) {
                None => None,
                Some(d) => if a * radix + d > 0xffff { None } else { Some(a * radix + d) },
            },
        }
    }
}

/// What `u16::from_str_radix(s, radix)` gives: an optional `+`, then one or
/// more digits, with a value that fits in 16 bits.
pub open spec fn spec_from_str_radix(s: Seq<char>, radix: nat) -> Option<nat> {
    let d = if s.len() > 0 && s[0] == '+' { s.drop_first() } else { s };
    if d.len() == 0 { None } else { digits_value(d, radix, d.len()) }
}

/// `s` with every leading copy of `p` removed (as `trim_start_matches`).
pub open spec fn trim_prefixes(s: Seq<char>, p: Seq<char>) -> Seq<char>
    decreases s.len(),
{
    if p.len() > 0 && starts_with(s, p) {
        trim_prefixes(s.subrange(p.len() as int, s.len() as int), p)
    } else {
        s
    }
}

/// `s` with every trailing `c` removed (as `trim_end_matches`).
pub open spec fn trim_suffix_char(s: Seq<char>, c: char) -> Seq<char>
    decreases s.len(),
{
    if s.len() > 0 && s.last() == c { trim_suffix_char(s.drop_last(), c) } else { s }
}

pub open spec fn hex_prefix() -> Seq<char> {
    seq!['0', 'x']
}

pub open spec fn bin_prefix() -> Seq<char> {
    seq!['0', 'b']
}

/// The value of a literal: after `0x` hexadecimal, after `0b` binary, else
/// decimal.
pub open spec fn literal_value(s: Seq<char>) -> Option<nat> {
    if starts_with(s, hex_prefix()) {
        spec_from_str_radix(trim_prefixes(s, hex_prefix()), 16)
    } else if starts_with(s, bin_prefix()) {
        spec_from_str_radix(trim_prefixes(s, bin_prefix()), 2)
    } else {
        spec_from_str_radix(s, 10)
    }
}

/// The value of an operand read as a number: in base 16 where `force_hex`
/// holds, else as `literal_value`.
pub open spec fn spec_num_for_string(s: Seq<char>, force_hex: bool) -> Option<nat> {
    if force_hex { spec_from_str_radix(s, 16) } else { literal_value(s) }
}

fn digit_of(c: char, radix: u32) -> (r: Option<u32>)
    requires
        radix <= 36,
    ensures
        r == (match digit_value(c, radix as nat) {
            Some(v) => Some(v as u32),
            None => None::<u32>,
        }),
{
    let v: u32 = if '0' <= c && c <= '9' {
        (c as u32) - ('0' as u32)
    } else if 'a' <= c && c <= 'z' {
        (c as u32) - ('a' as u32) + 10
    } else if 'A' <= c && c <= 'Z' {
        (c as u32) - ('A' as u32) + 10
    } else {
        36
    };
    if v < radix { Some(v) } else { None }
}

/// Reads `s` in base `radix`, as `u16::from_str_radix` does.
pub fn from_str_radix(s: &[char], radix: u32) -> (r: Option<u16>)
    requires
        radix == 2 || radix == 10 || radix == 16,
    ensures
        r == (match spec_from_str_radix(s@, radix as nat) {
            Some(v) => Some(v as u16),
            None => None::<u16>,
        }),
        r is Some ==> r->0 as nat == spec_from_str_radix(s@, radix as nat)->0,
{
    let n = s.len();
    let start: usize = if n > 0 && s[0] == '+' { 1 } else { 0 };
    let ghost d = if s@.len() > 0 && s@[0] == '+' { s@.drop_first() } else { s@ };
    if start >= n {
        return None;
    }
    let mut acc: u32 = 0;
    let mut i: usize = start;
    while i < n
        invariant
            start <= i <= n,
            n == s@.len(),
            d == s@.subrange(start as int, n as int),
            d.len() == n - start,
            d.len() > 0,
            spec_from_str_radix(s@, radix as nat) == digits_value(d, radix as nat, d.len()),
            radix == 2 || radix == 10 || radix == 16,
            digits_value(d, radix as nat, (i - start) as nat) == Some(acc as nat),
            acc <= 0xffff,
        decreases n - i,
    {
        assert(d[(i - start) as int] == s@[i as int]);
        match digit_of(s[i], radix) {
            None => {
                assert(digits_value(d, radix as nat, (i - start + 1) as nat) is None);
                proof { lemma_none_stays(d, radix as nat, (i - start + 1) as nat, d.len()); }
                return None;
            },
            Some(dv) => {
                assert(acc * radix <= 0xffff * 16) by (nonlinear_arith)
                    requires
                        acc <= 0xffff,
                        radix <= 16,
                ;
                assert(dv < radix);
                let next: u32 = acc * radix + dv;
                if next > 0xffff {
                    assert(digits_value(d, radix as nat, (i - start + 1) as nat) is None);
                    proof { lemma_none_stays(d, radix as nat, (i - start + 1) as nat, d.len()); }
                    return None;
                }
                acc = next;
            },
        }
        i = i + 1;
    }
    assert(d.len() == n - start);
    Some(acc as u16)
}

/// Once the left-to-right reading has failed, it stays failed.
proof fn lemma_none_stays(s: Seq<char>, radix: nat, i: nat, j: nat)
    requires
        i <= j,
        digits_value(s, radix, i) is None,
    ensures
        digits_value(s, radix, j) is None,
    decreases j - i,
{
    if i < j {
        lemma_none_stays(s, radix, i, (j - 1) as nat);
    }
}

/// Drops every leading copy of the two characters `a`, `b` from `s[start..]`
/// and gives the index where the rest begins.
fn skip_prefixes(s: &[char], a: char, b: char) -> (r: usize)
    ensures
        r <= s@.len(),
        s@.subrange(r as int, s@.len() as int) == trim_prefixes(s@, seq![a, b]),
{
    let n = s.len();
    let mut i: usize = 0;
    assert(s@.subrange(0, n as int) =~= s@);
    while i < n && n - i >= 2 && s[i] == a && s[i + 1] == b
        invariant
            i <= n,
            n == s@.len(),
            trim_prefixes(s@.subrange(i as int, n as int), seq![a, b]) == trim_prefixes(s@, seq![a, b]),
        decreases n - i,
    {
        let ghost t = s@.subrange(i as int, n as int);
        assert(t.subrange(0, 2) =~= seq![a, b]);
        assert(t.subrange(2, t.len() as int) =~= s@.subrange(i + 2, n as int));
        i = i + 2;
    }
    proof {
        let t = s@.subrange(i as int, n as int);
        if t.len() >= 2 {
            assert(t.subrange(0, 2) != seq![a, b]) by {
                if t.subrange(0, 2) == seq![a, b] {
                    assert(t.subrange(0, 2)[0] == a);
                    assert(t.subrange(0, 2)[1] == b);
                }
            }
        }
    }
    i
}

/// Reads a literal operand (decimal, `0x` hex or `0b` binary).
pub fn parse_literal(s: &[char]) -> (r: Option<u16>)
    ensures
        r == (match literal_value(s@) {
            Some(v) => Some(v as u16),
            None => None::<u16>,
        }),
        r is Some ==> r->0 as nat == literal_value(s@)->0,
{
    let n = s.len();
    if n >= 2 && s[0] == '0' && s[1] == 'x' {
        assert(s@.subrange(0, 2) =~= hex_prefix());
        let k = skip_prefixes(s, '0', 'x');
        from_str_radix(&s[k..n], 16)
    } else if n >= 2 && s[0] == '0' && s[1] == 'b' {
        assert(s@.subrange(0, 2) =~= bin_prefix());
        assert(!starts_with(s@, hex_prefix()));
        let k = skip_prefixes(s, '0', 'b');
        from_str_radix(&s[k..n], 2)
    } else {
        proof {
            if n >= 2 {
                assert(s@.subrange(0, 2) != hex_prefix()) by {
                    if s@.subrange(0, 2) == hex_prefix() { assert(s@.subrange(0, 2)[1] == 'x'); }
                }
                assert(s@.subrange(0, 2) != bin_prefix()) by {
                    if s@.subrange(0, 2) == bin_prefix() { assert(s@.subrange(0, 2)[1] == 'b'); }
                }
            }
        }
        from_str_radix(s, 10)
    }
}

/// Whether `imm` is a literal whose value is at most `max_size`.
pub fn immediate_is_valid(imm: &str, max_size: u16) -> (r: bool)
    ensures
        r == (literal_value(imm@) is Some && literal_value(imm@)->0 <= max_size as nat),
{
    let c = chars_of(imm);
    match parse_literal(c.as_slice()) {
        Some(v) => v <= max_size,
        None => false,
    }
}

/// The value of `hex`, read in base 16 where `force_hex` holds, else as a
/// literal; the caller vouches that it is one.
pub fn num_for_string(hex: &str, force_hex: bool) -> (r: u16)
    requires
        spec_num_for_string(hex@, force_hex) is Some,
    ensures
        r as nat == spec_num_for_string(hex@, force_hex)->0,
{
    let c = chars_of(hex);
    let parsed = if force_hex {
        from_str_radix(c.as_slice(), 16)
    } else {
        parse_literal(c.as_slice())
    };
    match parsed {
        Some(v) => v,
        None => 0,
    }
}

/// The lower-case character for digit `d` (below 16).
pub open spec fn digit_char(d: nat) -> char {
    seq!['0', '1', '2', '3', '4', '5', '6', '7', '8', '9', 'a', 'b', 'c', 'd', 'e', 'f'][d as int]
}

/// The digits of `v` in base `radix`, most significant first, without
/// leading zeros.
pub open spec fn render_digits(v: nat, radix: nat) -> Seq<char>
    decreases v
    via render_digits_decreases
{
    if radix < 2 || v < radix {
        seq![digit_char(v)]
    } else {
        render_digits(v / radix, radix).push(digit_char(v % radix))
    }
}

#[via_fn]
proof fn render_digits_decreases(v: nat, radix: nat) {
    if !(radix < 2 || v < radix) {
        assert(v / radix < v) by (nonlinear_arith)
            requires
                radix >= 2,
                v >= radix,
        ;
    }
}

proof fn lemma_digit_char(d: nat, radix: nat)
    requires
        d < radix,
        radix == 2 || radix == 10 || radix == 16,
    ensures
        digit_value(digit_char(d), radix) == Some(d),
        digit_char(d) != '+',
        digit_char(d) != 'x',
        radix <= 10 ==> digit_char(d) != 'b',
        radix == 2 ==> digit_char(d) == '0' || digit_char(d) == '1',
{
}

proof fn lemma_digits_prefix(s1: Seq<char>, s2: Seq<char>, radix: nat, i: nat)
    requires
        i <= s1.len(),
        i <= s2.len(),
        s1.subrange(0, i as int) == s2.subrange(0, i as int),
    ensures
        digits_value(s1, radix, i) == digits_value(s2, radix, i),
    decreases i,
{
    if i > 0 {
        assert(s1.subrange(0, i as int)[i - 1] == s1[i - 1]);
        assert(s2.subrange(0, i as int)[i - 1] == s2[i - 1]);
        assert(s1.subrange(0, i - 1) =~= s1.subrange(0, i as int).subrange(0, i - 1));
        assert(s2.subrange(0, i - 1) =~= s2.subrange(0, i as int).subrange(0, i - 1));
        lemma_digits_prefix(s1, s2, radix, (i - 1) as nat);
    }
}

proof fn lemma_render(v: nat, radix: nat)
    requires
        v <= 0xffff,
        radix == 2 || radix == 10 || radix == 16,
    ensures
        render_digits(v, radix).len() > 0,
        digits_value(render_digits(v, radix), radix, render_digits(v, radix).len()) == Some(v),
        forall|j: int| 0 <= j < render_digits(v, radix).len() ==> {
            let c = #[trigger] render_digits(v, radix)[j];
            &&& c != '+' && c != 'x'
            &&& radix <= 10 ==> c != 'b'
        },
    decreases v,
{
    if v < radix {
        lemma_digit_char(v, radix);
        let s = render_digits(v, radix);
        assert(digits_value(s, radix, 0) == Some(0nat));
        assert(0 * radix + v == v);
    } else {
        let q = v / radix;
        let d = v % radix;
        assert(q < v && q * radix + d == v && d < radix) by (nonlinear_arith)
            requires
                radix >= 2,
                v >= radix,
                q == v / radix,
                d == v % radix,
        ;
        lemma_render(q, radix);
        lemma_digit_char(d, radix);
        let r = render_digits(q, radix);
        let s = r.push(digit_char(d));
        assert(s.subrange(0, r.len() as int) =~= r.subrange(0, r.len() as int));
        lemma_digits_prefix(s, r, radix, r.len());
        assert(s[s.len() - 1] == digit_char(d));
        assert(render_digits(v, radix) == s);
        assert(digits_value(s, radix, r.len()) == Some(q));
        assert(digits_value(s, radix, s.len()) == Some(v));
        assert forall|j: int| 0 <= j < s.len() implies {
            let c = #[trigger] s[j];
            &&& c != '+' && c != 'x'
            &&& radix <= 10 ==> c != 'b'
        } by {
            if j < r.len() {
                assert(s[j] == r[j]);
            }
        }
    }
}

/// A value written in decimal, in hexadecimal after `0x`, or in binary
/// after `0b`, reads back as that value.
pub proof fn lemma_literal_round_trip(v: u16)
    ensures
        literal_value(render_digits(v as nat, 10)) == Some(v as nat),
        literal_value(hex_prefix() + render_digits(v as nat, 16)) == Some(v as nat),
        literal_value(bin_prefix() + render_digits(v as nat, 2)) == Some(v as nat),
{
    let d = render_digits(v as nat, 10);
    let h = render_digits(v as nat, 16);
    let b = render_digits(v as nat, 2);
    lemma_render(v as nat, 10);
    lemma_render(v as nat, 16);
    lemma_render(v as nat, 2);
    assert(d[0] != '+');
    assert(h[0] != '+');
    assert(b[0] != '+');
    if d.len() >= 2 {
        assert(d.subrange(0, 2)[1] == d[1]);
        assert(d.subrange(0, 2) != hex_prefix());
        assert(d.subrange(0, 2) != bin_prefix());
    }
    let hx = hex_prefix() + h;
    assert(hx.subrange(0, 2) =~= hex_prefix());
    assert(hx.subrange(2, hx.len() as int) =~= h);
    if h.len() >= 2 {
        assert(h.subrange(0, 2)[1] == h[1]);
        assert(h.subrange(0, 2) != hex_prefix());
    }
    assert(trim_prefixes(h, hex_prefix()) == h);
    let bx = bin_prefix() + b;
    assert(bx.subrange(0, 2) =~= bin_prefix());
    assert(bx.subrange(0, 2) != hex_prefix()) by {
        assert(bx.subrange(0, 2)[1] == 'b');
    }
    assert(bx.subrange(2, bx.len() as int) =~= b);
    if b.len() >= 2 {
        assert(b.subrange(0, 2)[1] == b[1]);
        assert(b.subrange(0, 2) != bin_prefix());
    }
    assert(trim_prefixes(b, bin_prefix()) == b);
}

} // verus!
